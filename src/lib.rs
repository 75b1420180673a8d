//! Moving files to a freedesktop.org trash bin, restoring them, and keeping
//! the trash bin's bookkeeping files (`.trashinfo`, `directorysizes`) in order.
//!
//! The library decides; the caller performs the filesystem work that each
//! decision asks for and hands back what it observed.
pub mod args;
pub mod device;
pub mod dirsizes;
pub mod display;
pub mod encoding;
pub mod entry;
pub mod paths;
pub mod root;
pub mod sorting;
pub mod text;
pub mod trashinfo;

pub use args::{get_xdg_data_home, parse_args, Args, ArgsError, EnvError};
pub use device::{trash_mount_points, Device, DeviceNumber, MountError};
pub use dirsizes::{dirsizes_entries, DirSizesError};
pub use display::size_display;
pub use entry::{EntryStat, FsAction, TrashError, TrashFile};
pub use paths::{get_file_name, get_path_relative_to, join_path, to_abs_path, PathError};
pub use root::{PathStatus, RootError, TrashDirectory, TrashRootType};
pub use trashinfo::{DeletionDate, TrashInfo, TrashInfoError};
pub use sorting::{sort_file_list, SortKey, SortType};
pub use text::{decimal_string, to_chars};
