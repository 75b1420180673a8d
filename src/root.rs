//! Trash roots: which trash directory governs a file, and where its parts lie.
use vstd::prelude::*;
use crate::device::{opt_view, Device};
use crate::paths::{join_path, path_join};
use crate::text::{dec, push_decimal};

verus! {

/// The kind of a trash root.
#[derive(Debug, Clone, Copy, PartialEq, Eq, Structural)]
pub enum TrashRootType {
    /// `$XDG_DATA_HOME/Trash`.
    Home,
    /// `$topdir/.Trash/$uid`, in a directory that an administrator provided.
    TopDirAdmin,
    /// `$topdir/.Trash-$uid`.
    TopDirUser,
}

/// What a look at a path found (the caller looks; nothing here touches the
/// filesystem).
#[derive(Debug, Clone, Copy, PartialEq, Eq, Structural)]
pub struct PathStatus {
    /// Something exists there, following links.
    pub exists: bool,
    /// It is a directory, following links.
    pub is_dir: bool,
    /// It is a regular file, following links.
    pub is_file: bool,
    /// The path itself is a symbolic link.
    pub is_symlink: bool,
    /// The current user may read, write and enter it.
    pub accessible: bool,
    /// The current user may delete it and write to it.
    pub deletable: bool,
    /// Its mode, following links, has the sticky bit.
    pub sticky: bool,
}

/// Why a trash root could not be used.
#[derive(Debug, Clone, Copy, PartialEq, Eq, Structural)]
pub enum RootError {
    /// The directory does not exist and is not to be created.
    Missing,
    /// It exists but is not a directory.
    NotDirectory,
    /// The current user cannot read, write or enter it.
    NotWritable,
    /// The administrator's `.Trash` is a link or lacks the sticky bit.
    NotSticky,
    /// The file is on another device than the data home, and its mount point
    /// is not known.
    MountUnknown,
}

pub open spec fn files_name() -> Seq<char> {
    seq!['f', 'i', 'l', 'e', 's']
}

pub open spec fn info_name() -> Seq<char> {
    seq!['i', 'n', 'f', 'o']
}

pub open spec fn trash_name() -> Seq<char> {
    seq!['T', 'r', 'a', 's', 'h']
}

pub open spec fn admin_trash_name() -> Seq<char> {
    seq!['.', 'T', 'r', 'a', 's', 'h']
}

/// `.Trash-$uid`.
pub open spec fn user_trash_name(euid: u32) -> Seq<char> {
    seq!['.', 'T', 'r', 'a', 's', 'h', '-'] + dec(euid as nat)
}

/// `$topdir/.Trash`.
pub open spec fn admin_trash_path(top_dir: Seq<char>) -> Seq<char> {
    path_join(top_dir, admin_trash_name())
}

/// `$topdir/.Trash/$uid`.
pub open spec fn admin_user_trash_path(top_dir: Seq<char>, euid: u32) -> Seq<char> {
    path_join(admin_trash_path(top_dir), dec(euid as nat))
}

/// `$topdir/.Trash-$uid`.
pub open spec fn user_trash_path(top_dir: Seq<char>, euid: u32) -> Seq<char> {
    path_join(top_dir, user_trash_name(euid))
}

/// A directory with status `st` will serve, once the caller has made sure it
/// exists: it is one already, usable by the current user, or it is missing and
/// to be created.
pub open spec fn dir_outcome(st: PathStatus, create: bool) -> Result<(), RootError> {
    if st.exists {
        if !st.is_dir {
            Err(RootError::NotDirectory)
        } else if !st.accessible {
            Err(RootError::NotWritable)
        } else {
            Ok(())
        }
    } else if create {
        Ok(())
    } else {
        Err(RootError::Missing)
    }
}

/// The administrator's `.Trash` with status `admin` may hold per-user trash
/// directories: it exists, the user may write in it, and it is no link and
/// has the sticky bit.
pub open spec fn admin_outcome(admin: PathStatus) -> Result<(), RootError> {
    if !admin.exists {
        Err(RootError::Missing)
    } else if !admin.accessible {
        Err(RootError::NotWritable)
    } else if !admin.sticky || admin.is_symlink {
        Err(RootError::NotSticky)
    } else {
        Ok(())
    }
}

/// The trash root on an external mount, and its kind: the administrator's
/// `.Trash/$uid` where it serves, else `.Trash-$uid`.
pub open spec fn topdir_choice(
    top_dir: Seq<char>,
    euid: u32,
    admin: PathStatus,
    admin_user: PathStatus,
    user: PathStatus,
) -> Result<(Seq<char>, TrashRootType), RootError> {
    if admin_outcome(admin) is Ok && dir_outcome(admin_user, true) is Ok {
        Ok((admin_user_trash_path(top_dir, euid), TrashRootType::TopDirAdmin))
    } else {
        match dir_outcome(user, true) {
            Ok(_) => Ok((user_trash_path(top_dir, euid), TrashRootType::TopDirUser)),
            Err(e) => Err(e),
        }
    }
}

/// The trash root for a file on device `file_dev_id`, and its kind: the home
/// trash where the file shares the device of the data home `xdg`, else the
/// trash on the file's mount.
pub open spec fn root_choice(
    file_dev_id: u64,
    mount_point: Option<Seq<char>>,
    xdg: Seq<char>,
    xdg_dev_id: u64,
    euid: u32,
    admin: PathStatus,
    admin_user: PathStatus,
    user: PathStatus,
) -> Result<(Seq<char>, TrashRootType), RootError> {
    if file_dev_id == xdg_dev_id {
        Ok((path_join(xdg, trash_name()), TrashRootType::Home))
    } else {
        match mount_point {
            Some(top) => topdir_choice(top, euid, admin, admin_user, user),
            None => Err(RootError::MountUnknown),
        }
    }
}

/// A trash root, with its `files` and `info` directories.
#[derive(Debug)]
pub struct TrashDirectory {
    pub device: Device,
    pub home: String,
    pub files: String,
    pub info: String,
    pub root_type: TrashRootType,
}

impl Clone for TrashDirectory {
    fn clone(&self) -> (r: Self)
        ensures
            r == *self,
    {
        TrashDirectory {
            device: self.device.clone(),
            home: self.home.clone(),
            files: self.files.clone(),
            info: self.info.clone(),
            root_type: self.root_type,
        }
    }
}

impl TrashDirectory {
    /// `files` and `info` lie directly in `home`.
    pub open spec fn wf(&self) -> bool {
        self.files@ == path_join(self.home@, files_name()) && self.info@ == path_join(self.home@, info_name())
    }

    /// The trash root at `root`. The caller makes sure that its `files` and
    /// `info` directories exist.
    pub fn from(root: String, device: Device, root_type: TrashRootType) -> (r: TrashDirectory)
        ensures
            r.home == root,
            r.device == device,
            r.root_type == root_type,
            r.wf(),
    {
        let f = String::from_str("files");
        let i = String::from_str("info");
        proof {
            reveal_strlit("files");
            reveal_strlit("info");
            assert(f@ =~= files_name());
            assert(i@ =~= info_name());
        }
        let files = join_path(root.as_str(), f.as_str());
        let info = join_path(root.as_str(), i.as_str());
        TrashDirectory { device, root_type, home: root, files, info }
    }

    /// The administrator's trash on the mount at `top_dir`: `.Trash/$uid`
    /// where `.Trash` exists, the user may write in it, it is no link and has
    /// the sticky bit, and `.Trash/$uid` is a usable directory or is missing
    /// and `create_if_not_exist` holds.
    pub fn try_topdir_admin_trash_for(
        top_dir: &str,
        euid: u32,
        create_if_not_exist: bool,
        admin: &PathStatus,
        admin_user: &PathStatus,
    ) -> (r: Result<String, RootError>)
        ensures
            match admin_outcome(*admin) {
                Err(e) => r == Err::<String, RootError>(e),
                Ok(_) => match dir_outcome(*admin_user, create_if_not_exist) {
                    Err(e) => r == Err::<String, RootError>(e),
                    Ok(_) => r matches Ok(p) && p@ == admin_user_trash_path(top_dir@, euid),
                },
            },
    {
        if !admin.exists {
            return Err(RootError::Missing);
        }
        if !admin.accessible {
            return Err(RootError::NotWritable);
        }
        if !admin.sticky || admin.is_symlink {
            return Err(RootError::NotSticky);
        }
        if let Err(e) = check_dir(admin_user, create_if_not_exist) {
            return Err(e);
        }
        let t = String::from_str(".Trash");
        proof {
            reveal_strlit(".Trash");
            assert(t@ =~= admin_trash_name());
        }
        let admin_trash = join_path(top_dir, t.as_str());
        let id = crate::text::decimal_string(euid as u64);
        Ok(join_path(admin_trash.as_str(), id.as_str()))
    }

    /// The administrator's trash on the mount at `top_dir`, where it already
    /// exists.
    pub fn topdir_admin_trash_exists_for(
        top_dir: &str,
        euid: u32,
        admin: &PathStatus,
        admin_user: &PathStatus,
    ) -> (r: Result<String, RootError>)
        ensures
            match admin_outcome(*admin) {
                Err(e) => r == Err::<String, RootError>(e),
                Ok(_) => match dir_outcome(*admin_user, false) {
                    Err(e) => r == Err::<String, RootError>(e),
                    Ok(_) => r matches Ok(p) && p@ == admin_user_trash_path(top_dir@, euid),
                },
            },
    {
        Self::try_topdir_admin_trash_for(top_dir, euid, false, admin, admin_user)
    }

    /// The user's own trash on the mount at `top_dir`: `.Trash-$uid`, where it
    /// is a usable directory or is missing and `create_if_not_exist` holds.
    pub fn try_topdir_user_trash_for(
        top_dir: &str,
        euid: u32,
        create_if_not_exist: bool,
        user: &PathStatus,
    ) -> (r: Result<String, RootError>)
        ensures
            match dir_outcome(*user, create_if_not_exist) {
                Err(e) => r == Err::<String, RootError>(e),
                Ok(_) => r matches Ok(p) && p@ == user_trash_path(top_dir@, euid),
            },
    {
        if let Err(e) = check_dir(user, create_if_not_exist) {
            return Err(e);
        }
        let mut name = String::from_str(".Trash-");
        proof {
            reveal_strlit(".Trash-");
        }
        push_decimal(&mut name, euid as u64);
        assert(name@ =~= user_trash_name(euid));
        Ok(join_path(top_dir, name.as_str()))
    }

    /// The user's own trash on the mount at `top_dir`, where it already exists.
    pub fn topdir_user_trash_exists_for(top_dir: &str, euid: u32, user: &PathStatus) -> (r: Result<
        String,
        RootError,
    >)
        ensures
            match dir_outcome(*user, false) {
                Err(e) => r == Err::<String, RootError>(e),
                Ok(_) => r matches Ok(p) && p@ == user_trash_path(top_dir@, euid),
            },
    {
        Self::try_topdir_user_trash_for(top_dir, euid, false, user)
    }

    /// The trash root that already exists on the mount at `top_dir`, without
    /// creating any: the administrator's `.Trash/$uid` first, then
    /// `.Trash-$uid`.
    pub fn existing_topdir_trash(
        top_dir: &str,
        euid: u32,
        admin: &PathStatus,
        admin_user: &PathStatus,
        user: &PathStatus,
    ) -> (r: Result<(String, TrashRootType), RootError>)
        ensures
            match existing_choice(top_dir@, euid, *admin, *admin_user, *user) {
                Ok((p, kind)) => r matches Ok((q, k)) && q@ == p && k == kind,
                Err(e) => r == Err::<(String, TrashRootType), RootError>(e),
            },
    {
        match Self::topdir_admin_trash_exists_for(top_dir, euid, admin, admin_user) {
            Ok(v) => Ok((v, TrashRootType::TopDirAdmin)),
            Err(_) => match Self::topdir_user_trash_exists_for(top_dir, euid, user) {
                Ok(v) => Ok((v, TrashRootType::TopDirUser)),
                Err(e) => Err(e),
            },
        }
    }

    /// The trash root for a file on `file_dev` (resolved to its mount where it
    /// is not on the device of the data home `xdg_data_home`). On the device
    /// of the data home it is `$XDG_DATA_HOME/Trash`; elsewhere the
    /// administrator's `.Trash/$uid` where it serves, and otherwise, never
    /// failing for the first, `.Trash-$uid`. The statuses are those of
    /// `.Trash`, `.Trash/$uid` and `.Trash-$uid` on the file's mount; missing
    /// directories are to be created by the caller, which then also makes sure
    /// of `files` and `info`.
    pub fn resolve_for_file(
        file_dev: &Device,
        xdg_data_home: &str,
        xdg_dev: &Device,
        euid: u32,
        admin: &PathStatus,
        admin_user: &PathStatus,
        user: &PathStatus,
    ) -> (r: Result<TrashDirectory, RootError>)
        ensures
            match root_choice(file_dev.dev_num.dev_id, opt_view(file_dev.mount_point),
                xdg_data_home@, xdg_dev.dev_num.dev_id, euid, *admin, *admin_user, *user) {
                Ok((home, kind)) => r matches Ok(t) && t.home@ == home && t.root_type == kind
                    && t.device == *file_dev && t.wf(),
                Err(e) => r matches Err(x) && x == e,
            },
    {
        if file_dev.dev_num.dev_id == xdg_dev.dev_num.dev_id {
            let t = String::from_str("Trash");
            proof {
                reveal_strlit("Trash");
                assert(t@ =~= trash_name());
            }
            let home = join_path(xdg_data_home, t.as_str());
            return Ok(TrashDirectory::from(home, file_dev.clone(), TrashRootType::Home));
        }
        let top_dir = match &file_dev.mount_point {
            Some(m) => m,
            None => {
                return Err(RootError::MountUnknown);
            },
        };
        match Self::try_topdir_admin_trash_for(top_dir.as_str(), euid, true, admin, admin_user) {
            Ok(v) => Ok(TrashDirectory::from(v, file_dev.clone(), TrashRootType::TopDirAdmin)),
            Err(_) => {
                match Self::try_topdir_user_trash_for(top_dir.as_str(), euid, true, user) {
                    Ok(v) => Ok(TrashDirectory::from(v, file_dev.clone(), TrashRootType::TopDirUser)),
                    Err(e) => Err(e),
                }
            },
        }
    }
}

impl PathStatus {
    /// The status of a directory in which the user turned out not to be able
    /// to create what was needed.
    pub fn refused(&self) -> (r: PathStatus)
        ensures
            r == (PathStatus { accessible: false, ..*self }),
    {
        PathStatus { accessible: false, ..*self }
    }
}

/// The existing trash root on the mount at `top`, and its kind: the
/// administrator's `.Trash/$uid` where it serves, else `.Trash-$uid`.
pub open spec fn existing_choice(
    top: Seq<char>,
    euid: u32,
    admin: PathStatus,
    admin_user: PathStatus,
    user: PathStatus,
) -> Result<(Seq<char>, TrashRootType), RootError> {
    if admin_outcome(admin) is Ok && dir_outcome(admin_user, false) is Ok {
        Ok((admin_user_trash_path(top, euid), TrashRootType::TopDirAdmin))
    } else {
        match dir_outcome(user, false) {
            Ok(_) => Ok((user_trash_path(top, euid), TrashRootType::TopDirUser)),
            Err(e) => Err(e),
        }
    }
}

/// Once the administrator's `.Trash` refused the creation of `.Trash/$uid`,
/// resolving again never chooses it.
pub proof fn lemma_refused_admin_not_chosen(
    file_dev_id: u64,
    mount_point: Option<Seq<char>>,
    xdg: Seq<char>,
    xdg_dev_id: u64,
    euid: u32,
    admin: PathStatus,
    admin_user: PathStatus,
    user: PathStatus,
)
    ensures
        match root_choice(file_dev_id, mount_point, xdg, xdg_dev_id, euid,
            PathStatus { accessible: false, ..admin }, admin_user, user) {
            Ok((_, kind)) => kind != TrashRootType::TopDirAdmin,
            Err(_) => true,
        },
{
}

/// What a look at a directory finds once the caller has created it where it
/// was missing.
pub open spec fn after_creation(st: PathStatus) -> PathStatus {
    if st.exists {
        st
    } else {
        PathStatus { exists: true, is_dir: true, is_file: false, is_symlink: false, accessible: true, ..st }
    }
}

/// Resolving the root again, once the caller has created the root that the
/// first resolution chose, chooses the same root, of the same kind: the
/// second resolution does not fail because the directory now exists.
pub proof fn lemma_resolution_idempotent(
    file_dev_id: u64,
    mount_point: Option<Seq<char>>,
    xdg: Seq<char>,
    xdg_dev_id: u64,
    euid: u32,
    admin: PathStatus,
    admin_user: PathStatus,
    user: PathStatus,
)
    requires
        root_choice(file_dev_id, mount_point, xdg, xdg_dev_id, euid, admin, admin_user, user) is Ok,
    ensures
        ({
            let (home, kind) = root_choice(file_dev_id, mount_point, xdg, xdg_dev_id, euid, admin,
                admin_user, user).unwrap();
            let admin_user2 = if kind == TrashRootType::TopDirAdmin { after_creation(admin_user) } else { admin_user };
            let user2 = if kind == TrashRootType::TopDirUser { after_creation(user) } else { user };
            root_choice(file_dev_id, mount_point, xdg, xdg_dev_id, euid, admin, admin_user2, user2)
                == Ok::<(Seq<char>, TrashRootType), RootError>((home, kind))
        }),
{
}

/// A file on the device of the data home goes to the home trash; a file on
/// another device never does, whatever path the data home has.
pub proof fn lemma_device_routing(
    file_dev_id: u64,
    mount_point: Option<Seq<char>>,
    xdg: Seq<char>,
    xdg_dev_id: u64,
    euid: u32,
    admin: PathStatus,
    admin_user: PathStatus,
    user: PathStatus,
)
    ensures
        file_dev_id == xdg_dev_id ==> root_choice(file_dev_id, mount_point, xdg, xdg_dev_id, euid,
            admin, admin_user, user) == Ok::<(Seq<char>, TrashRootType), RootError>(
            (path_join(xdg, trash_name()), TrashRootType::Home),
        ),
        file_dev_id != xdg_dev_id ==> match root_choice(file_dev_id, mount_point, xdg, xdg_dev_id,
            euid, admin, admin_user, user) {
            Ok((_, kind)) => kind != TrashRootType::Home,
            Err(_) => true,
        },
{
}

/// Where the administrator's `.Trash` on a file's mount exists but lacks the
/// sticky bit (or is a link), the file goes to `.Trash-$uid` when that
/// serves, and resolution fails only as that directory fails; the root chosen
/// is never the one under `.Trash`.
pub proof fn lemma_sticky_fallback(
    file_dev_id: u64,
    top: Seq<char>,
    xdg: Seq<char>,
    xdg_dev_id: u64,
    euid: u32,
    admin: PathStatus,
    admin_user: PathStatus,
    user: PathStatus,
)
    requires
        file_dev_id != xdg_dev_id,
        admin.exists,
        !admin.sticky || admin.is_symlink,
    ensures
        root_choice(file_dev_id, Some(top), xdg, xdg_dev_id, euid, admin, admin_user, user) == match dir_outcome(user, true) {
            Ok(_) => Ok::<(Seq<char>, TrashRootType), RootError>(
                (user_trash_path(top, euid), TrashRootType::TopDirUser),
            ),
            Err(e) => Err(e),
        },
{
}

fn check_dir(st: &PathStatus, create: bool) -> (r: Result<(), RootError>)
    ensures
        r == dir_outcome(*st, create),
{
    if st.exists {
        if !st.is_dir {
            Err(RootError::NotDirectory)
        } else if !st.accessible {
            Err(RootError::NotWritable)
        } else {
            Ok(())
        }
    } else if create {
        Ok(())
    } else {
        Err(RootError::Missing)
    }
}

} // verus!
