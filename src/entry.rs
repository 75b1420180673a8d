//! Trashed items: naming them inside a trash root, and the record that ties
//! an item in `files` to its `.trashinfo`.
use vstd::prelude::*;
use crate::device::opt_view;
use crate::encoding::{decode_path, encode_path, is_unreserved, well_encoded};
use crate::paths::{
    components, components_vec, file_name, get_file_name, get_path_relative_to, is_abs, join_path,
    path_join, relative_to,
};
use crate::root::{PathStatus, TrashDirectory, TrashRootType};
use crate::text::{dec, find_from, lemma_find_from, push_char, push_decimal, string_of, to_chars};
use crate::trashinfo::{
    date_text, info_text, lemma_trashinfo_round_trip, parse_info, single_line, DeletionDate, TrashInfo,
};

verus! {

/// The name under which the `idx`-th item called `name` is kept: the name
/// itself for the first, else `.idx` put before the first `.` of the name,
/// or after the name where it has none.
pub open spec fn trashable_name(name: Seq<char>, idx: nat) -> Seq<char> {
    let d = find_from(name, 0, '.');
    if idx < 2 {
        name
    } else if d < name.len() {
        name.subrange(0, d) + seq!['.'] + dec(idx) + seq!['.'] + name.subrange(d + 1, name.len() as int)
    } else {
        name + seq!['.'] + dec(idx)
    }
}

/// `.trashinfo`.
pub open spec fn info_ext() -> Seq<char> {
    seq!['.', 't', 'r', 'a', 's', 'h', 'i', 'n', 'f', 'o']
}

/// The views of a sequence of strings.
pub open spec fn names(v: Seq<String>) -> Seq<Seq<char>> {
    v.map_values(|s: String| s@)
}

/// The `idx`-th name for `name` is taken neither in `files` (whose entries
/// are `taken_files`) nor, with `.trashinfo` added, in `info`.
pub open spec fn name_free(name: Seq<char>, idx: nat, taken_files: Seq<Seq<char>>, taken_infos: Seq<Seq<char>>) -> bool {
    !taken_files.contains(trashable_name(name, idx))
        && !taken_infos.contains(trashable_name(name, idx) + info_ext())
}

/// The smallest index from `idx` below `u32::MAX` whose name is free.
pub open spec fn first_free(name: Seq<char>, idx: nat, taken_files: Seq<Seq<char>>, taken_infos: Seq<Seq<char>>) -> Option<nat>
    decreases u32::MAX - idx,
{
    if idx >= u32::MAX {
        None
    } else if name_free(name, idx, taken_files, taken_infos) {
        Some(idx)
    } else {
        first_free(name, idx + 1, taken_files, taken_infos)
    }
}

proof fn lemma_first_free_from(name: Seq<char>, idx: nat, tf: Seq<Seq<char>>, ti: Seq<Seq<char>>)
    ensures
        match first_free(name, idx, tf, ti) {
            Some(n) => idx <= n < u32::MAX && name_free(name, n, tf, ti)
                && forall|m: nat| idx <= m < n ==> !#[trigger] name_free(name, m, tf, ti),
            None => forall|m: nat| idx <= m < u32::MAX ==> !#[trigger] name_free(name, m, tf, ti),
        },
    decreases u32::MAX - idx,
{
    if idx < u32::MAX && !name_free(name, idx, tf, ti) {
        lemma_first_free_from(name, idx + 1, tf, ti);
    }
}

/// The index that naming picks is free in both `files` and `info`, and every
/// index before it, from 1, is taken in one of them; where it picks none,
/// every index up to `u32::MAX` is taken.
pub proof fn lemma_first_free(name: Seq<char>, tf: Seq<Seq<char>>, ti: Seq<Seq<char>>)
    ensures
        match first_free(name, 1, tf, ti) {
            Some(n) => 1 <= n < u32::MAX && name_free(name, n, tf, ti)
                && forall|m: nat| 1 <= m < n ==> !#[trigger] name_free(name, m, tf, ti),
            None => forall|m: nat| 1 <= m < u32::MAX ==> !#[trigger] name_free(name, m, tf, ti),
        },
{
    lemma_first_free_from(name, 1, tf, ti);
}

/// Once an item has been trashed under the name that naming picked, the next
/// item of the same name gets a later index and so another name, whose
/// `files` and `info` entries do not exist yet.
pub proof fn lemma_names_distinct(name: Seq<char>, tf: Seq<Seq<char>>, ti: Seq<Seq<char>>, n: nat)
    requires
        first_free(name, 1, tf, ti) == Some(n),
    ensures
        ({
            let tf2 = tf.push(trashable_name(name, n));
            let ti2 = ti.push(trashable_name(name, n) + info_ext());
            match first_free(name, 1, tf2, ti2) {
                Some(m) => n < m && trashable_name(name, m) != trashable_name(name, n)
                    && name_free(name, m, tf2, ti2),
                None => true,
            }
        }),
{
    let tf2 = tf.push(trashable_name(name, n));
    let ti2 = ti.push(trashable_name(name, n) + info_ext());
    lemma_first_free(name, tf, ti);
    lemma_first_free(name, tf2, ti2);
    assert(tf2[tf.len() as int] == trashable_name(name, n));
    assert(!name_free(name, n, tf2, ti2));
    assert forall|m: nat| 1 <= m < n implies !#[trigger] name_free(name, m, tf2, ti2) by {
        assert(!name_free(name, m, tf, ti));
        if tf.contains(trashable_name(name, m)) {
            let k = choose|k: int| 0 <= k < tf.len() && tf[k] == trashable_name(name, m);
            assert(tf2[k] == tf[k]);
        } else {
            let k = choose|k: int| 0 <= k < ti.len() && ti[k] == trashable_name(name, m) + info_ext();
            assert(ti2[k] == ti[k]);
        }
    }
    match first_free(name, 1, tf2, ti2) {
        Some(m) => {
            if m <= n {
                assert(!name_free(name, m, tf2, ti2));
            }
            assert(!tf2.contains(trashable_name(name, m)));
        },
        None => {},
    }
}

proof fn lemma_dec_len(n: nat)
    ensures
        dec(n).len() >= 1,
        n >= 10 ==> dec(n).len() >= 2,
    decreases n,
{
    if n >= 10 {
        lemma_dec_len(n / 10);
    }
}

proof fn lemma_digit_char_injective(x: nat, y: nat)
    requires
        x < 10,
        y < 10,
        crate::text::digit_char(x) == crate::text::digit_char(y),
    ensures
        x == y,
{
    assert(crate::text::digit_char(0) == '0');
    assert(crate::text::digit_char(1) == '1');
    assert(crate::text::digit_char(2) == '2');
    assert(crate::text::digit_char(3) == '3');
    assert(crate::text::digit_char(4) == '4');
    assert(crate::text::digit_char(5) == '5');
    assert(crate::text::digit_char(6) == '6');
    assert(crate::text::digit_char(7) == '7');
    assert(crate::text::digit_char(8) == '8');
    assert(crate::text::digit_char(9) == '9');
    assert(x == 0 || x == 1 || x == 2 || x == 3 || x == 4 || x == 5 || x == 6 || x == 7 || x == 8 || x == 9);
    assert(y == 0 || y == 1 || y == 2 || y == 3 || y == 4 || y == 5 || y == 6 || y == 7 || y == 8 || y == 9);
}

/// Different numbers are written differently.
pub proof fn lemma_dec_injective(a: nat, b: nat)
    requires
        dec(a) == dec(b),
    ensures
        a == b,
    decreases a,
{
    lemma_dec_len(a);
    lemma_dec_len(b);
    if a >= 10 && b >= 10 {
        assert(dec(a) == dec(a / 10).push(crate::text::digit_char(a % 10)));
        assert(dec(b) == dec(b / 10).push(crate::text::digit_char(b % 10)));
        assert(dec(a).last() == dec(b).last());
        assert(dec(a).drop_last() =~= dec(a / 10));
        assert(dec(b).drop_last() =~= dec(b / 10));
        lemma_dec_injective(a / 10, b / 10);
        let x: nat = a % 10;
        let y: nat = b % 10;
        assert(crate::text::digit_char(x) == dec(a).last());
        assert(crate::text::digit_char(y) == dec(b).last());
        lemma_digit_char_injective(x, y);
    } else if a < 10 && b < 10 {
        assert(dec(a) == seq![crate::text::digit_char(a)]);
        assert(dec(b) == seq![crate::text::digit_char(b)]);
        assert(dec(a)[0] == dec(b)[0]);
        assert(crate::text::digit_char(a) == dec(a)[0]);
        assert(crate::text::digit_char(b) == dec(b)[0]);
        lemma_digit_char_injective(a, b);
    }
}

/// Different indices give an item different names.
pub proof fn lemma_trashable_injective(name: Seq<char>, j: nat, k: nat)
    requires
        1 <= j < k,
    ensures
        trashable_name(name, j) != trashable_name(name, k),
{
    let d = find_from(name, 0, '.');
    crate::text::lemma_first_found(name, 0, '.');
    lemma_dec_len(j);
    lemma_dec_len(k);
    if j >= 2 && trashable_name(name, j) == trashable_name(name, k) {
        let a = trashable_name(name, j);
        let b = trashable_name(name, k);
        if d < name.len() {
            let s = d + 1;
            assert(a.subrange(s, s + dec(j).len()) =~= dec(j));
            assert(b.subrange(s, s + dec(k).len()) =~= dec(k));
        } else {
            let s: int = name.len() as int + 1;
            assert(a.subrange(s, a.len() as int) =~= dec(j));
            assert(b.subrange(s, b.len() as int) =~= dec(k));
        }
        lemma_dec_injective(j, k);
    }
}

/// The names of the first `k - 1` items called `name`.
pub open spec fn earlier_names(name: Seq<char>, k: nat) -> Seq<Seq<char>> {
    Seq::new((k - 1) as nat, |j: int| trashable_name(name, (j + 1) as nat))
}

/// After `k - 1` items called `name` were trashed into a root that held
/// nothing else, the next one gets index `k`: `name`, then `name.2.ext`,
/// `name.3.ext`, ... (`name.2`, `name.3`, ... without a dot).
pub proof fn lemma_name_sequence(name: Seq<char>, k: nat)
    requires
        1 <= k < u32::MAX,
    ensures
        ({
            let tf = earlier_names(name, k);
            first_free(name, 1, tf, tf.map_values(|x: Seq<char>| x + info_ext())) == Some(k)
        }),
{
    let tf = earlier_names(name, k);
    let ti = tf.map_values(|x: Seq<char>| x + info_ext());
    lemma_first_free(name, tf, ti);
    assert forall|m: nat| 1 <= m < k implies !#[trigger] name_free(name, m, tf, ti) by {
        assert(tf[m - 1] == trashable_name(name, m));
    }
    assert(name_free(name, k, tf, ti)) by {
        if tf.contains(trashable_name(name, k)) {
            let x = choose|x: int| 0 <= x < tf.len() && tf[x] == trashable_name(name, k);
            lemma_trashable_injective(name, (x + 1) as nat, k);
        }
        if ti.contains(trashable_name(name, k) + info_ext()) {
            let x = choose|x: int| 0 <= x < ti.len() && ti[x] == trashable_name(name, k) + info_ext();
            let a = trashable_name(name, (x + 1) as nat);
            let b = trashable_name(name, k);
            assert(ti[x] == a + info_ext());
            assert((a + info_ext()).subrange(0, a.len() as int) =~= a);
            assert((b + info_ext()).subrange(0, b.len() as int) =~= b);
            lemma_trashable_injective(name, (x + 1) as nat, k);
        }
    }
}

/// An item trashed with a record that holds `key` (as `TrashInfo::new`
/// writes it: encoded without line breaks, decoding to `key`) is found again
/// from that record's file with `key` as the place to restore it to.
pub proof fn lemma_restore_target(key: Seq<char>, op: Seq<char>, dd: Seq<char>)
    requires
        single_line(op),
        single_line(dd),
        decode_path(op) == Some(key),
    ensures
        match parse_info(info_text(op, dd)) {
            Some((o, d)) => o == op && d == dd && decode_path(o) == Some(key),
            None => false,
        },
{
    lemma_trashinfo_round_trip(op, dd);
}

/// Why a trash entry could not be named, read or used.
#[derive(Debug, Clone, Copy, PartialEq, Eq, Structural)]
pub enum TrashError {
    /// The path to trash is not absolute.
    NotAbsolute,
    /// The path has no final component to name the entry after.
    NoFileName,
    /// Nothing is at the path to trash, not even a link.
    NotFound,
    /// Something, or a link, is already where the item would be restored to.
    DestinationExists,
    /// The directory to restore the item into is gone or is no directory.
    ParentMissing,
    /// Every index up to `u32::MAX` is taken.
    NameSpaceExhausted,
    /// The trash root is on a mount whose mount point is not known.
    MountUnknown,
    /// The path does not lie under the trash root's mount point.
    NotUnderMount,
    /// The entry's names have not been generated.
    Uninitialised,
    /// The item in `files` has no `.trashinfo` file.
    MissingTrashInfo,
    /// The `.trashinfo` file is malformed.
    InvalidTrashInfo,
    /// The recorded path does not decode to UTF-8.
    InvalidEncoding,
}

/// The path that the `.trashinfo` of an item from `original` records in a
/// root of kind `kind` mounted at `mount_point`: the absolute path in the home
/// trash, else the path relative to the mount point.
pub open spec fn info_key(kind: TrashRootType, original: Seq<char>, mount_point: Option<Seq<char>>) -> Result<Seq<char>, TrashError> {
    match kind {
        TrashRootType::Home => Ok(original),
        _ => match mount_point {
            None => Err(TrashError::MountUnknown),
            Some(m) => match relative_to(original, m) {
                Some(rel) => Ok(rel),
                None => Err(TrashError::NotUnderMount),
            },
        },
    }
}

/// A trashed item, or one about to be trashed.
#[derive(Debug)]
pub struct TrashFile {
    /// Where the item is, or was before it was trashed.
    pub original_file: String,
    /// Its place in the root's `files` directory, once named.
    pub files_entry: Option<String>,
    /// Its record, once named.
    pub trashinfo: Option<TrashInfo>,
    /// The trash root that holds it.
    pub trashroot: TrashDirectory,
}

impl TrashFile {
    /// Whether the item at a path can be trashed, from what a look at it
    /// found (`st`): something must be there. A link whose target is gone
    /// counts: the link itself is moved.
    pub fn check_source(st: &PathStatus) -> (r: Result<(), TrashError>)
        ensures
            r is Ok <==> st.exists || st.is_symlink,
            st.is_symlink ==> r is Ok,
            r is Err ==> r == Err::<(), TrashError>(TrashError::NotFound),
    {
        if !st.exists && !st.is_symlink {
            return Err(TrashError::NotFound);
        }
        Ok(())
    }

    /// An item at `original_file`, to be trashed into `trashroot`; its names
    /// are not generated yet.
    pub fn new(original_file: String, trashroot: &TrashDirectory) -> (r: Result<TrashFile, TrashError>)
        ensures
            is_abs(original_file@) <==> r is Ok,
            r matches Ok(t) ==> t.original_file == original_file && t.files_entry is None
                && t.trashinfo is None && t.trashroot == *trashroot,
            !is_abs(original_file@) ==> r == Err::<TrashFile, TrashError>(TrashError::NotAbsolute),
    {
        let cs = to_chars(original_file.as_str());
        if !(cs.len() > 0 && cs[0] == '/') {
            return Err(TrashError::NotAbsolute);
        }
        Ok(TrashFile { original_file, files_entry: None, trashinfo: None, trashroot: trashroot.clone() })
    }

    /// The item `trash_file` found in the `files` of `trash_dir`, with the
    /// text of its `.trashinfo` file (none where there is no such file; see
    /// `TrashDirectory::trashinfo_path_for`).
    pub fn from(trash_file: String, trash_dir: &TrashDirectory, trashinfo_content: Option<&str>) -> (r: Result<TrashFile, TrashError>)
        ensures
            match file_name(trash_file@) {
                None => r == Err::<TrashFile, TrashError>(TrashError::NoFileName),
                Some(n) => match trashinfo_content {
                    None => r == Err::<TrashFile, TrashError>(TrashError::MissingTrashInfo),
                    Some(c) => match parse_info(c@) {
                        None => r == Err::<TrashFile, TrashError>(TrashError::InvalidTrashInfo),
                        Some((op, dd)) => match decode_path(op) {
                            None => r == Err::<TrashFile, TrashError>(TrashError::InvalidEncoding),
                            Some(orig) => r matches Ok(t) && t.original_file@ == orig
                                && t.files_entry == Some(trash_file) && t.trashroot == *trash_dir
                                && (t.trashinfo matches Some(i) && i.original_path@ == op
                                && i.deletion_date@ == dd
                                && i.path@ == path_join(trash_dir.info@, n + info_ext())),
                        },
                    },
                },
            },
    {
        let info_path = match trash_dir.trashinfo_path_for(trash_file.as_str()) {
            Some(p) => p,
            None => {
                return Err(TrashError::NoFileName);
            },
        };
        let content = match trashinfo_content {
            Some(c) => c,
            None => {
                return Err(TrashError::MissingTrashInfo);
            },
        };
        let info = match TrashInfo::from(info_path, content) {
            Ok(i) => i,
            Err(_) => {
                return Err(TrashError::InvalidTrashInfo);
            },
        };
        let original_file = match info.get_original_path() {
            Some(o) => o,
            None => {
                return Err(TrashError::InvalidEncoding);
            },
        };
        Ok(TrashFile {
            original_file,
            files_entry: Some(trash_file),
            trashinfo: Some(info),
            trashroot: trash_dir.clone(),
        })
    }

    /// The item's place in `files` and the place of its `.trashinfo`, once
    /// its names are generated.
    pub fn entry_paths(&self) -> (r: Result<(String, String), TrashError>)
        ensures
            match (self.files_entry, self.trashinfo) {
                (Some(f), Some(t)) => r matches Ok((a, b)) && a == f && b == t.path,
                _ => r == Err::<(String, String), TrashError>(TrashError::Uninitialised),
            },
    {
        match (&self.files_entry, &self.trashinfo) {
            (Some(f), Some(t)) => Ok((f.clone(), t.path.clone())),
            _ => Err(TrashError::Uninitialised),
        }
    }

    /// The steps that trash the item once its `.trashinfo` is written: move
    /// it to its place in `files` and, for a directory (not a link to one),
    /// record its size, best effort.
    pub fn trash(&self, is_dir: bool) -> (r: Result<Vec<FsAction>, TrashError>)
        ensures
            match (self.files_entry, self.trashinfo) {
                (Some(f), Some(_)) => r matches Ok(v) && v@ == if is_dir {
                    seq![FsAction::Rename { from: self.original_file, to: f }, FsAction::AddDirSizesEntry]
                } else {
                    seq![FsAction::Rename { from: self.original_file, to: f }]
                },
                _ => r == Err::<Vec<FsAction>, TrashError>(TrashError::Uninitialised),
            },
    {
        let (f, _) = match self.entry_paths() {
            Ok(p) => p,
            Err(e) => {
                return Err(e);
            },
        };
        let mut v: Vec<FsAction> = Vec::new();
        v.push(FsAction::Rename { from: self.original_file.clone(), to: f });
        if is_dir {
            v.push(FsAction::AddDirSizesEntry);
        }
        assert(v@ =~= if is_dir {
            seq![FsAction::Rename { from: self.original_file, to: self.files_entry.unwrap() }, FsAction::AddDirSizesEntry]
        } else {
            seq![FsAction::Rename { from: self.original_file, to: self.files_entry.unwrap() }]
        });
        Ok(v)
    }

    /// The steps that restore the item: move it back from `files` to where it
    /// came from (`restore_path`), remove its `.trashinfo`, and for a
    /// directory drop stale `directorysizes` entries, best effort. From what
    /// a look at that place (`target`) and at the directory above it
    /// (`parent`) found, nothing is done where something, or a link, is
    /// already there, or where the directory above is gone.
    pub fn restore(&self, is_dir: bool, target: &PathStatus, parent: &PathStatus) -> (r: Result<
        Vec<FsAction>,
        TrashError,
    >)
        ensures
            match (self.files_entry, self.trashinfo) {
                (Some(_), Some(_)) if !(parent.exists && parent.is_dir) => r == Err::<
                    Vec<FsAction>,
                    TrashError,
                >(TrashError::ParentMissing),
                (Some(_), Some(_)) if target.exists || target.is_symlink => r == Err::<
                    Vec<FsAction>,
                    TrashError,
                >(TrashError::DestinationExists),
                (Some(f), Some(t)) => r matches Ok(v) && v@.len() == (if is_dir { 3int } else { 2int })
                    && (v@[0] matches FsAction::Rename { from, to } && from == f
                        && to@ == crate::display::restore_target(*self))
                    && v@[1] == FsAction::RemoveFile(t.path)
                    && (is_dir ==> v@[2] == FsAction::CleanupDirSizes { required: false }),
                _ => r == Err::<Vec<FsAction>, TrashError>(TrashError::Uninitialised),
            },
    {
        let (f, i) = match self.entry_paths() {
            Ok(p) => p,
            Err(e) => {
                return Err(e);
            },
        };
        if !(parent.exists && parent.is_dir) {
            return Err(TrashError::ParentMissing);
        }
        if target.exists || target.is_symlink {
            return Err(TrashError::DestinationExists);
        }
        let mut v: Vec<FsAction> = Vec::new();
        v.push(FsAction::Rename { from: f, to: self.restore_path() });
        v.push(FsAction::RemoveFile(i));
        if is_dir {
            v.push(FsAction::CleanupDirSizes { required: false });
        }
        Ok(v)
    }

    /// The steps that delete the item for good: remove it from `files` (a
    /// directory with all it holds; a link as a link), remove its
    /// `.trashinfo`, and for a directory drop its `directorysizes` entry,
    /// which must succeed: nothing can correct the cache later.
    pub fn delete_forever(&self, is_dir: bool) -> (r: Result<Vec<FsAction>, TrashError>)
        ensures
            match (self.files_entry, self.trashinfo) {
                (Some(f), Some(t)) => r matches Ok(v) && v@ == if is_dir {
                    seq![
                        FsAction::RemoveDirAll(f),
                        FsAction::RemoveFile(t.path),
                        FsAction::CleanupDirSizes { required: true },
                    ]
                } else {
                    seq![FsAction::RemoveFile(f), FsAction::RemoveFile(t.path)]
                },
                _ => r == Err::<Vec<FsAction>, TrashError>(TrashError::Uninitialised),
            },
    {
        let (f, i) = match self.entry_paths() {
            Ok(p) => p,
            Err(e) => {
                return Err(e);
            },
        };
        let mut v: Vec<FsAction> = Vec::new();
        if is_dir {
            v.push(FsAction::RemoveDirAll(f));
            v.push(FsAction::RemoveFile(i));
            v.push(FsAction::CleanupDirSizes { required: true });
            assert(v@ =~= seq![
                FsAction::RemoveDirAll(self.files_entry.unwrap()),
                FsAction::RemoveFile(self.trashinfo.unwrap().path),
                FsAction::CleanupDirSizes { required: true },
            ]);
        } else {
            v.push(FsAction::RemoveFile(f));
            v.push(FsAction::RemoveFile(i));
            assert(v@ =~= seq![
                FsAction::RemoveFile(self.files_entry.unwrap()),
                FsAction::RemoveFile(self.trashinfo.unwrap().path),
            ]);
        }
        Ok(v)
    }

    /// The text to write, as a new file, to the item's `.trashinfo`, once its
    /// names are generated.
    pub fn create_trashinfo(&self) -> (r: Result<String, TrashError>)
        ensures
            match (self.files_entry, self.trashinfo) {
                (Some(_), Some(t)) => r matches Ok(c) && c@ == crate::trashinfo::info_text(
                    t.original_path@,
                    t.deletion_date@,
                ),
                _ => r == Err::<String, TrashError>(TrashError::Uninitialised),
            },
    {
        match (&self.files_entry, &self.trashinfo) {
            (Some(_), Some(t)) => Ok(t.file_content()),
            _ => Err(TrashError::Uninitialised),
        }
    }

    /// The item's size in bytes, from what a look at it found: a link's own
    /// length, a directory's disk space with its contents, a file's length.
    pub fn get_size(&self, stat: &EntryStat) -> (r: Result<u64, TrashError>)
        ensures
            match (self.files_entry, self.trashinfo) {
                (Some(_), Some(_)) => r == Ok::<u64, TrashError>(
                    if stat.is_symlink { stat.len } else if stat.is_dir { stat.tree_size } else { stat.len },
                ),
                _ => r == Err::<u64, TrashError>(TrashError::Uninitialised),
            },
    {
        if self.files_entry.is_none() || self.trashinfo.is_none() {
            return Err(TrashError::Uninitialised);
        }
        if stat.is_symlink {
            Ok(stat.len)
        } else if stat.is_dir {
            Ok(stat.tree_size)
        } else {
            Ok(stat.len)
        }
    }

    /// The item is kept at `files_path` in `files`, and its record, kept at
    /// `info_path`, holds `key` percent-encoded and the date `date`.
    pub open spec fn named(&self, files_path: Seq<char>, info_path: Seq<char>, key: Seq<char>, date: Seq<char>) -> bool {
        match (self.files_entry, self.trashinfo) {
            (Some(f), Some(t)) => f@ == files_path && t.path@ == info_path
                && t.original_path@ == encode_path(key) && decode_path(t.original_path@) == Some(key)
                && well_encoded(t.original_path@)
                && ((forall|i: int| 0 <= i < key.len() ==> is_unreserved(#[trigger] key[i]) || key[i] == '/')
                    ==> t.original_path@ == key)
                && t.deletion_date@ == date,
            _ => false,
        }
    }
}

/// One step of moving an item into, out of, or away from the trash, for the
/// caller to perform in order.
#[derive(Debug, Clone, PartialEq, Eq)]
pub enum FsAction {
    /// Rename `from` to `to`.
    Rename { from: String, to: String },
    /// Remove a file or link, not following it.
    RemoveFile(String),
    /// Remove a directory and all it holds.
    RemoveDirAll(String),
    /// Add the trashed directory to the root's `directorysizes`; a failure
    /// does not undo what came before.
    AddDirSizesEntry,
    /// Drop the entries of directories that left the root from its
    /// `directorysizes`; where `required` is false a failure is ignored.
    CleanupDirSizes { required: bool },
}

/// What a look at an item in `files` found, for its size.
#[derive(Debug, Clone, Copy, PartialEq, Eq, Structural)]
pub struct EntryStat {
    /// The item is a symbolic link.
    pub is_symlink: bool,
    /// The item is a directory.
    pub is_dir: bool,
    /// Its length in bytes: of the link itself where it is one.
    pub len: u64,
    /// For a directory, the disk space of it and its contents.
    pub tree_size: u64,
}

impl TrashDirectory {
    /// The name for the `idx`-th item called `stripped_file_name`.
    pub fn get_trashable_file_name(stripped_file_name: String, idx: u32) -> (r: String)
        ensures
            r@ == trashable_name(stripped_file_name@, idx as nat),
    {
        if idx < 2 {
            return stripped_file_name;
        }
        let cs = to_chars(stripped_file_name.as_str());
        let mut d: usize = 0;
        while d < cs.len() && cs[d] != '.'
            invariant
                d <= cs@.len(),
                forall|m: int| 0 <= m < d ==> #[trigger] cs@[m] != '.',
            decreases cs.len() - d,
        {
            d = d + 1;
        }
        proof {
            lemma_find_from(cs@, 0, d as int, '.');
        }
        if d < cs.len() {
            let mut r = string_of(&cs, 0, d);
            push_char(&mut r, '.');
            push_decimal(&mut r, idx as u64);
            push_char(&mut r, '.');
            let rest = string_of(&cs, d + 1, cs.len());
            r.append(rest.as_str());
            assert(r@ =~= trashable_name(stripped_file_name@, idx as nat));
            r
        } else {
            let mut r = stripped_file_name;
            push_char(&mut r, '.');
            push_decimal(&mut r, idx as u64);
            assert(r@ =~= trashable_name(stripped_file_name@, idx as nat));
            r
        }
    }

    /// `path` is this root or lies inside it, component by component: the
    /// trash itself is not to be trashed.
    pub fn contains_path(&self, path: &str) -> (r: bool)
        ensures
            r == components(self.home@).is_prefix_of(components(path@)),
    {
        let h = to_chars(self.home.as_str());
        let p = to_chars(path);
        let hc = components_vec(&h);
        let pc = components_vec(&p);
        if hc.len() > pc.len() {
            return false;
        }
        let mut i: usize = 0;
        while i < hc.len()
            invariant
                crate::text::views(hc@) == components(self.home@),
                crate::text::views(pc@) == components(path@),
                hc@.len() <= pc@.len(),
                i <= hc@.len(),
                forall|m: int| 0 <= m < i ==> crate::text::views(hc@)[m] == crate::text::views(pc@)[m],
            decreases hc.len() - i,
        {
            if !crate::text::chars_eq(&hc[i], &pc[i]) {
                assert(crate::text::views(hc@)[i as int] != crate::text::views(pc@)[i as int]);
                assert(crate::text::views(pc@).subrange(0, hc@.len() as int)[i as int]
                    != crate::text::views(hc@)[i as int]);
                return false;
            }
            i = i + 1;
        }
        assert(crate::text::views(pc@).subrange(0, hc@.len() as int) =~= crate::text::views(hc@));
        true
    }

    /// Where the `.trashinfo` of the item `trash_file` of this root's `files`
    /// is kept: `info/<name>.trashinfo`.
    pub fn trashinfo_path_for(&self, trash_file: &str) -> (r: Option<String>)
        ensures
            match file_name(trash_file@) {
                Some(n) => r matches Some(p) && p@ == path_join(self.info@, n + info_ext()),
                None => r is None,
            },
    {
        match get_file_name(trash_file) {
            Some(n) => {
                let mut x = n;
                x.append(".trashinfo");
                proof {
                    reveal_strlit(".trashinfo");
                }
                assert(x@ =~= file_name(trash_file@).unwrap() + info_ext());
                Some(join_path(self.info.as_str(), x.as_str()))
            },
            None => None,
        }
    }

    /// Names `trash_file` in this root: the first index from 1 whose name is
    /// taken neither among `taken_files`, the entries of `files`, nor, with
    /// `.trashinfo`, among `taken_infos`, the entries of `info`. Sets the
    /// item's place in `files` and its record, dated `deletion_date`, which
    /// holds the original path: as it is in the home trash, else relative to
    /// the mount point.
    pub fn generate_trash_entry_names(
        &self,
        trash_file: &mut TrashFile,
        deletion_date: &DeletionDate,
        taken_files: &Vec<String>,
        taken_infos: &Vec<String>,
    ) -> (r: Result<(), TrashError>)
        requires
            deletion_date.wf(),
        ensures
            final(trash_file).original_file == old(trash_file).original_file,
            final(trash_file).trashroot == old(trash_file).trashroot,
            match file_name(old(trash_file).original_file@) {
                None => r == Err::<(), TrashError>(TrashError::NoFileName) && *final(trash_file) == *old(trash_file),
                Some(name) => match first_free(name, 1, names(taken_files@), names(taken_infos@)) {
                    None => r == Err::<(), TrashError>(TrashError::NameSpaceExhausted)
                        && *final(trash_file) == *old(trash_file),
                    Some(n) => match info_key(self.root_type, old(trash_file).original_file@,
                        opt_view(self.device.mount_point)) {
                        Err(e) => r == Err::<(), TrashError>(e) && *final(trash_file) == *old(trash_file),
                        Ok(key) => r is Ok && final(trash_file).named(
                            path_join(self.files@, trashable_name(name, n)),
                            path_join(self.info@, trashable_name(name, n) + info_ext()),
                            key,
                            date_text(*deletion_date),
                        ),
                    },
                },
            },
    {
        let name = match get_file_name(trash_file.original_file.as_str()) {
            Some(n) => n,
            None => {
                return Err(TrashError::NoFileName);
            },
        };
        let ghost tf = names(taken_files@);
        let ghost ti = names(taken_infos@);
        let mut n: u32 = 1;
        while n < u32::MAX
            invariant
                1 <= n <= u32::MAX,
                *trash_file == *old(trash_file),
                deletion_date.wf(),
                file_name(old(trash_file).original_file@) == Some(name@),
                tf == names(taken_files@),
                ti == names(taken_infos@),
                first_free(name@, 1, tf, ti) == first_free(name@, n as nat, tf, ti),
            decreases u32::MAX - n,
        {
            let cand = Self::get_trashable_file_name(name.clone(), n);
            let mut info_name = cand.clone();
            info_name.append(".trashinfo");
            proof {
                reveal_strlit(".trashinfo");
            }
            assert(info_name@ =~= trashable_name(name@, n as nat) + info_ext());
            let in_files = contains_name(taken_files, &cand);
            let in_infos = contains_name(taken_infos, &info_name);
            if !in_files && !in_infos {
                let key = match self.entry_key(&trash_file.original_file) {
                    Ok(k) => k,
                    Err(e) => {
                        return Err(e);
                    },
                };
                let files_entry = join_path(self.files.as_str(), cand.as_str());
                let info_path = join_path(self.info.as_str(), info_name.as_str());
                let info = TrashInfo::new(info_path, key.as_str(), deletion_date);
                trash_file.files_entry = Some(files_entry);
                trash_file.trashinfo = Some(info);
                return Ok(());
            }
            n = n + 1;
        }
        Err(TrashError::NameSpaceExhausted)
    }

    /// The path that a `.trashinfo` in this root records for `original`.
    fn entry_key(&self, original: &String) -> (r: Result<String, TrashError>)
        ensures
            match info_key(self.root_type, original@, opt_view(self.device.mount_point)) {
                Ok(k) => r matches Ok(x) && x@ == k,
                Err(e) => r == Err::<String, TrashError>(e),
            },
    {
        match self.root_type {
            TrashRootType::Home => Ok(original.clone()),
            _ => match &self.device.mount_point {
                None => Err(TrashError::MountUnknown),
                Some(m) => match get_path_relative_to(original.as_str(), m.as_str()) {
                    Ok(rel) => Ok(rel),
                    Err(_) => Err(TrashError::NotUnderMount),
                },
            },
        }
    }
}

/// `s` is one of `v`.
fn contains_name(v: &Vec<String>, s: &String) -> (r: bool)
    ensures
        r == names(v@).contains(s@),
{
    let mut i: usize = 0;
    while i < v.len()
        invariant
            i <= v@.len(),
            forall|m: int| 0 <= m < i ==> v@[m]@ != s@,
        decreases v.len() - i,
    {
        if v[i] == *s {
            assert(names(v@)[i as int] == s@);
            return true;
        }
        i = i + 1;
    }
    assert(!names(v@).contains(s@)) by {
        if names(v@).contains(s@) {
            let k = choose|k: int| 0 <= k < names(v@).len() && names(v@)[k] == s@;
            assert(v@[k]@ == s@);
        }
    }
    false
}

} // verus!
