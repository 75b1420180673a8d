//! Devices and mounts: the device number of a path, and where it is mounted.
use vstd::prelude::*;
use crate::text::{
    dec, has_prefix, lines, lines_of, push_char, push_decimal, string_of, to_chars, views, words,
    words_of, chars_eq, };

verus! {

/// The major number that Linux packs into the device id `dev`.
pub open spec fn major_of(dev: u64) -> u32 {
    (((dev & 0x00000000000fff00u64) >> 8u64) | ((dev & 0xfffff00000000000u64) >> 32u64)) as u32
}

/// The minor number that Linux packs into the device id `dev`.
pub open spec fn minor_of(dev: u64) -> u32 {
    ((dev & 0x00000000000000ffu64) | ((dev & 0x00000ffffff00000u64) >> 12u64)) as u32
}

/// Relies on libc::major: the major number of a Linux device id.
#[verifier::external_body]
fn dev_major(dev: u64) -> (r: u32)
    ensures
        r == major_of(dev),
{
    libc::major(dev)
}

/// Relies on libc::minor: the minor number of a Linux device id.
#[verifier::external_body]
fn dev_minor(dev: u64) -> (r: u32)
    ensures
        r == minor_of(dev),
{
    libc::minor(dev)
}

/// A device id with its major and minor numbers.
#[derive(Debug, Clone, Copy, PartialEq, Eq, Structural)]
pub struct DeviceNumber {
    pub dev_id: u64,
    pub major: u32,
    pub minor: u32,
}

impl DeviceNumber {
    /// Consistent: the numbers are those that the id packs.
    pub open spec fn wf(&self) -> bool {
        self.major == major_of(self.dev_id) && self.minor == minor_of(self.dev_id)
    }

    /// The device number of a path, from the `st_dev` that a stat of the path
    /// (not following a final link) reported.
    pub fn for_path(st_dev: u64) -> (r: DeviceNumber)
        ensures
            r.dev_id == st_dev,
            r.wf(),
    {
        DeviceNumber { dev_id: st_dev, major: dev_major(st_dev), minor: dev_minor(st_dev) }
    }
}

/// The view of an optional string.
pub open spec fn opt_view(o: Option<String>) -> Option<Seq<char>> {
    match o {
        Some(s) => Some(s@),
        None => None,
    }
}

/// A device, and once resolved, where it is mounted.
#[derive(Debug)]
pub struct Device {
    pub dev_num: DeviceNumber,
    /// The mount source, as the mount table names it.
    pub dev_name: Option<String>,
    /// The directory of the filesystem that is mounted.
    pub mount_root: Option<String>,
    /// Where it is mounted.
    pub mount_point: Option<String>,
}

/// Why a device's mount could not be resolved.
#[derive(Debug, Clone, Copy, PartialEq, Eq, Structural)]
pub enum MountError {
    /// No line of the mount table has the device's numbers.
    NotFound,
}

/// `major:minor` as the mount table writes it.
pub open spec fn majmin(major: u32, minor: u32) -> Seq<char> {
    dec(major as nat) + seq![':'] + dec(minor as nat)
}

/// The line `l` of `/proc/self/mountinfo` is the one for `key`.
pub open spec fn mount_line_for(l: Seq<char>, key: Seq<char>) -> bool {
    words(l).len() >= 10 && words(l)[2] == key
}

/// The words of the first of the lines `ls` that is the one for `key`.
pub open spec fn find_mount(ls: Seq<Seq<char>>, key: Seq<char>) -> Option<Seq<Seq<char>>>
    decreases ls.len(),
{
    if ls.len() == 0 {
        None
    } else if mount_line_for(ls[0], key) {
        Some(words(ls[0]))
    } else {
        find_mount(ls.drop_first(), key)
    }
}

impl Clone for Device {
    fn clone(&self) -> (r: Self)
        ensures
            r == *self,
    {
        Device {
            dev_num: self.dev_num,
            dev_name: match &self.dev_name {
                Some(s) => Some(s.clone()),
                None => None,
            },
            mount_root: match &self.mount_root {
                Some(s) => Some(s.clone()),
                None => None,
            },
            mount_point: match &self.mount_point {
                Some(s) => Some(s.clone()),
                None => None,
            },
        }
    }
}

impl Device {
    /// A device not yet resolved to a mount.
    pub fn for_path(st_dev: u64) -> (r: Device)
        ensures
            r.dev_num.dev_id == st_dev,
            r.dev_num.wf(),
            r.dev_name is None,
            r.mount_root is None,
            r.mount_point is None,
    {
        Device {
            dev_num: DeviceNumber::for_path(st_dev),
            dev_name: None,
            mount_root: None,
            mount_point: None,
        }
    }

    /// Finds this device in the text of `/proc/self/mountinfo`: the first
    /// line whose third field is `major:minor` and that has at least ten
    /// fields gives the mount root (fourth field), the mount point (fifth) and
    /// the source (tenth). Without such a line nothing changes.
    pub fn resolve_mount(&mut self, mountinfo: &str) -> (r: Result<(), MountError>)
        ensures
            match find_mount(lines(mountinfo@), majmin(old(self).dev_num.major, old(self).dev_num.minor)) {
                Some(w) => r is Ok && final(self).dev_num == old(self).dev_num
                    && opt_view(final(self).mount_root) == Some(w[3])
                    && opt_view(final(self).mount_point) == Some(w[4])
                    && opt_view(final(self).dev_name) == Some(w[9]),
                None => r == Err::<(), MountError>(MountError::NotFound) && *final(self) == *old(self),
            },
    {
        let mut key = String::new();
        push_decimal(&mut key, self.dev_num.major as u64);
        push_char(&mut key, ':');
        push_decimal(&mut key, self.dev_num.minor as u64);
        let key_chars = to_chars(key.as_str());
        assert(key_chars@ =~= majmin(self.dev_num.major, self.dev_num.minor));
        let ghost kv = key_chars@;
        let cs = to_chars(mountinfo);
        let ls = lines_of(&cs);
        let ghost lv = views(ls@);
        let mut i: usize = 0;
        assert(lv.subrange(0, lv.len() as int) =~= lv);
        while i < ls.len()
            invariant
                *self == *old(self),
                kv == majmin(self.dev_num.major, self.dev_num.minor),
                kv == key_chars@,
                lv == views(ls@),
                lv == lines(mountinfo@),
                i <= ls@.len(),
                find_mount(lv, kv) == find_mount(lv.subrange(i as int, lv.len() as int), kv),
            decreases ls.len() - i,
        {
            let ws = words_of(&ls[i]);
            let ghost rest = lv.subrange(i as int, lv.len() as int);
            assert(rest[0] == ls@[i as int]@);
            assert(rest.drop_first() =~= lv.subrange(i + 1, lv.len() as int));
            assert(views(ws@) == words(rest[0]));
            let hit = ws.len() >= 10 && chars_eq(&ws[2], &key_chars);
            proof {
                if ws@.len() >= 10 {
                    assert(views(ws@)[2] == ws@[2]@);
                    assert(hit == (ws@[2]@ == kv));
                }
                assert(views(ws@).len() == ws@.len());
                assert(hit == mount_line_for(rest[0], kv));
            }
            if hit {
                assert(views(ws@)[2] == ws@[2]@);
                self.mount_root = Some(string_of(&ws[3], 0, ws[3].len()));
                self.mount_point = Some(string_of(&ws[4], 0, ws[4].len()));
                self.dev_name = Some(string_of(&ws[9], 0, ws[9].len()));
                proof {
                    assert(ws@[3]@.subrange(0, ws@[3]@.len() as int) =~= ws@[3]@);
                    assert(ws@[4]@.subrange(0, ws@[4]@.len() as int) =~= ws@[4]@);
                    assert(ws@[9]@.subrange(0, ws@[9]@.len() as int) =~= ws@[9]@);
                    assert(views(ws@)[3] == ws@[3]@);
                    assert(views(ws@)[4] == ws@[4]@);
                    assert(views(ws@)[9] == ws@[9]@);
                    assert(mount_line_for(rest[0], kv));
                    assert(find_mount(rest, kv) == Some(views(ws@)));
                }
                return Ok(());
            }
            proof {
                if ws@.len() >= 10 {
                    assert(views(ws@)[2] == ws@[2]@);
                }
                assert(!mount_line_for(rest[0], kv));
                assert(find_mount(rest, kv) == find_mount(rest.drop_first(), kv));
            }
            i = i + 1;
        }
        Err(MountError::NotFound)
    }
}

/// The mount table line with words `w` is a place to look for a trash bin:
/// its source is under `/dev` but not a loop device, and it is not mounted
/// under `/boot`.
pub open spec fn is_trash_mount(w: Seq<Seq<char>>) -> bool {
    w.len() >= 2 && seq!['/', 'd', 'e', 'v'].is_prefix_of(w[0])
        && !seq!['/', 'd', 'e', 'v', '/', 'l', 'o', 'o', 'p'].is_prefix_of(w[0])
        && !seq!['/', 'b', 'o', 'o', 't'].is_prefix_of(w[1])
}

/// The mount points, in order, of the lines `ls` of `/proc/mounts` that are
/// places to look for a trash bin.
pub open spec fn trash_mounts(ls: Seq<Seq<char>>) -> Seq<Seq<char>>
    decreases ls.len(),
{
    if ls.len() == 0 {
        seq![]
    } else if is_trash_mount(words(ls.last())) {
        trash_mounts(ls.drop_last()).push(words(ls.last())[1])
    } else {
        trash_mounts(ls.drop_last())
    }
}

/// The mount points in the text of `/proc/mounts` where a trash bin may be:
/// block devices other than loop devices, not mounted under `/boot`.
pub fn trash_mount_points(mounts: &str) -> (r: Vec<String>)
    ensures
        r@.map_values(|s: String| s@) == trash_mounts(lines(mounts@)),
{
    let dev: Vec<char> = vec!['/', 'd', 'e', 'v'];
    let lp: Vec<char> = vec!['/', 'd', 'e', 'v', '/', 'l', 'o', 'o', 'p'];
    let boot: Vec<char> = vec!['/', 'b', 'o', 'o', 't'];
    assert(dev@ =~= seq!['/', 'd', 'e', 'v']);
    assert(lp@ =~= seq!['/', 'd', 'e', 'v', '/', 'l', 'o', 'o', 'p']);
    assert(boot@ =~= seq!['/', 'b', 'o', 'o', 't']);
    let cs = to_chars(mounts);
    let ls = lines_of(&cs);
    let ghost lv = views(ls@);
    let mut r: Vec<String> = Vec::new();
    let mut i: usize = 0;
    while i < ls.len()
        invariant
            lv == views(ls@),
            lv == lines(mounts@),
            i <= ls@.len(),
            dev@ == seq!['/', 'd', 'e', 'v'],
            lp@ == seq!['/', 'd', 'e', 'v', '/', 'l', 'o', 'o', 'p'],
            boot@ == seq!['/', 'b', 'o', 'o', 't'],
            r@.map_values(|s: String| s@) == trash_mounts(lv.subrange(0, i as int)),
        decreases ls.len() - i,
    {
        let ws = words_of(&ls[i]);
        let ghost pre = lv.subrange(0, i + 1);
        assert(pre.drop_last() =~= lv.subrange(0, i as int));
        assert(pre.last() == ls@[i as int]@);
        if ws.len() >= 2 && has_prefix(&ws[0], &dev) && !has_prefix(&ws[0], &lp)
            && !has_prefix(&ws[1], &boot) {
            let m = string_of(&ws[1], 0, ws[1].len());
            assert(ws@[1]@.subrange(0, ws@[1]@.len() as int) =~= ws@[1]@);
            assert(views(ws@)[0] == ws@[0]@);
            assert(views(ws@)[1] == ws@[1]@);
            let ghost old_r = r@;
            r.push(m);
            assert(r@.map_values(|s: String| s@) =~= old_r.map_values(|s: String| s@).push(m@));
        } else {
            proof {
                if ws@.len() >= 2 {
                    assert(views(ws@)[0] == ws@[0]@);
                    assert(views(ws@)[1] == ws@[1]@);
                }
            }
        }
        i = i + 1;
    }
    assert(lv.subrange(0, i as int) =~= lv);
    r
}

} // verus!
