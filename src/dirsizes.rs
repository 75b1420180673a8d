//! The `directorysizes` cache of a trash root: one line `<size> <mtime>
//! <encoded name>` per trashed directory, rewritten whole on every change.
use vstd::prelude::*;
use crate::device::opt_view;
use crate::encoding::{percent_decode, percent_encode, url_decoded, url_encoded};
use crate::entry::{TrashError, TrashFile};
use crate::paths::{file_name, get_file_name, join_path, path_join};
use crate::root::{PathStatus, TrashDirectory, TrashRootType};
use crate::text::{dec, lines, lines_of, push_char, push_decimal, string_of, to_chars, views, words, words_of};

verus! {

/// The directory that the `directorysizes` line `l` is about: it has three
/// words and the third decodes.
pub open spec fn line_name(l: Seq<char>) -> Option<Seq<char>> {
    let w = words(l);
    if w.len() == 3 {
        url_decoded(w[2])
    } else {
        None
    }
}

/// The line `l` stays in the cache: it is about a directory that is still in
/// `files` (`present`) and that is not the one being `replaced`.
pub open spec fn line_kept(l: Seq<char>, present: bool, replaced: Option<Seq<char>>) -> bool {
    match line_name(l) {
        Some(f) => present && replaced != Some(f),
        None => false,
    }
}

/// The lines among `ls` that stay, in order, each ended by `\n`; `present[i]`
/// tells whether the directory of line `i` is still in `files`.
pub open spec fn kept_text(ls: Seq<Seq<char>>, present: Seq<bool>, replaced: Option<Seq<char>>) -> Seq<char>
    decreases ls.len(),
{
    if ls.len() == 0 {
        seq![]
    } else if line_kept(ls.last(), present[ls.len() - 1], replaced) {
        kept_text(ls.drop_last(), present, replaced) + ls.last() + seq!['\n']
    } else {
        kept_text(ls.drop_last(), present, replaced)
    }
}

/// The lines `ls`, each ended by `\n`.
pub open spec fn joined_lines(ls: Seq<Seq<char>>) -> Seq<char>
    decreases ls.len(),
{
    if ls.len() == 0 {
        seq![]
    } else {
        joined_lines(ls.drop_last()) + ls.last() + seq!['\n']
    }
}

/// The lines among `ls` that stay, in order.
pub open spec fn kept_seq(ls: Seq<Seq<char>>, present: Seq<bool>, replaced: Option<Seq<char>>) -> Seq<Seq<char>>
    decreases ls.len(),
{
    if ls.len() == 0 {
        seq![]
    } else if line_kept(ls.last(), present[ls.len() - 1], replaced) {
        kept_seq(ls.drop_last(), present, replaced).push(ls.last())
    } else {
        kept_seq(ls.drop_last(), present, replaced)
    }
}

/// The rewritten cache is made of the kept lines, each ended by `\n`, and each
/// of them is about a directory still in `files` other than the replaced one.
pub proof fn lemma_kept_lines(ls: Seq<Seq<char>>, present: Seq<bool>, replaced: Option<Seq<char>>)
    requires
        ls.len() <= present.len(),
    ensures
        kept_text(ls, present, replaced) == joined_lines(kept_seq(ls, present, replaced)),
        forall|k: int| 0 <= k < kept_seq(ls, present, replaced).len() ==> exists|i: int| 0 <= i < ls.len()
            && ls[i] == #[trigger] kept_seq(ls, present, replaced)[k] && line_kept(ls[i], present[i], replaced),
    decreases ls.len(),
{
    if ls.len() > 0 {
        let pre = ls.drop_last();
        lemma_kept_lines(pre, present, replaced);
        let ks = kept_seq(ls, present, replaced);
        let kp = kept_seq(pre, present, replaced);
        if line_kept(ls.last(), present[ls.len() - 1], replaced) {
            assert(ks.drop_last() =~= kp);
        }
        assert forall|k: int| 0 <= k < ks.len() implies exists|i: int| 0 <= i < ls.len() && ls[i] == #[trigger] ks[k]
            && line_kept(ls[i], present[i], replaced) by {
            if k < kp.len() {
                let i = choose|i: int| 0 <= i < pre.len() && pre[i] == kp[k] && line_kept(pre[i], present[i], replaced);
                assert(ls[i] == pre[i]);
                assert(ks[k] == kp[k]);
            } else {
                assert(ks[k] == ls[ls.len() - 1]);
            }
        }
    }
}

/// After the directory `d` left `files` (every line about it is reported
/// gone), no line of the rewritten cache is about `d`: each is about some
/// directory still in `files`.
pub proof fn lemma_deleted_name_absent(ls: Seq<Seq<char>>, present: Seq<bool>, d: Seq<char>)
    requires
        ls.len() <= present.len(),
        forall|i: int| 0 <= i < ls.len() && line_name(#[trigger] ls[i]) == Some(d) ==> !present[i],
    ensures
        kept_text(ls, present, None) == joined_lines(kept_seq(ls, present, None)),
        forall|k: int| 0 <= k < kept_seq(ls, present, None).len() ==> (#[trigger] line_name(
            kept_seq(ls, present, None)[k],
        )) is Some && line_name(kept_seq(ls, present, None)[k]) != Some(d),
{
    lemma_kept_lines(ls, present, None);
    let ks = kept_seq(ls, present, None);
    assert forall|k: int| 0 <= k < ks.len() implies (#[trigger] line_name(ks[k])) is Some && line_name(ks[k]) != Some(d) by {
        assert(ks[k] == ks[k]);
        let i = choose|i: int| 0 <= i < ls.len() && ls[i] == ks[k] && line_kept(ls[i], present[i], None);
        assert(line_name(ls[i]) is Some && present[i]);
    }
}

/// The line of a directory that has left `files` is dropped from the cache,
/// and the rewrite is what it would be had the line never been there: every
/// other line keeps its place in the order.
pub proof fn lemma_gone_entry_dropped(ls: Seq<Seq<char>>, present: Seq<bool>, replaced: Option<Seq<char>>, i: int)
    requires
        0 <= i < ls.len(),
        ls.len() <= present.len(),
        !present[i],
    ensures
        kept_text(ls, present, replaced) == kept_text(ls.remove(i), present.remove(i), replaced),
    decreases ls.len(),
{
    let n = ls.len();
    if i == n - 1 {
        assert(ls.remove(i) =~= ls.drop_last());
        assert(!line_kept(ls.last(), present[n - 1], replaced));
        lemma_kept_text_prefix(ls.drop_last(), present, present.remove(i), replaced);
    } else {
        lemma_gone_entry_dropped(ls.drop_last(), present, replaced, i);
        assert(ls.drop_last().remove(i) =~= ls.remove(i).drop_last());
        assert(ls.remove(i).last() == ls.last());
        assert(present.remove(i)[n - 2] == present[n - 1]);
    }
}

/// The rewrite of `ls` reads only the first `ls.len()` entries of `present`.
proof fn lemma_kept_text_prefix(ls: Seq<Seq<char>>, p1: Seq<bool>, p2: Seq<bool>, r: Option<Seq<char>>)
    requires
        ls.len() <= p1.len(),
        ls.len() <= p2.len(),
        forall|k: int| 0 <= k < ls.len() ==> p1[k] == p2[k],
    ensures
        kept_text(ls, p1, r) == kept_text(ls, p2, r),
    decreases ls.len(),
{
    if ls.len() > 0 {
        assert(p1[ls.len() - 1] == p2[ls.len() - 1]);
        lemma_kept_text_prefix(ls.drop_last(), p1, p2, r);
    }
}

/// Lines about directories that are all still in `files` come through a
/// cleanup unchanged and in order.
pub proof fn lemma_present_entries_kept(ls: Seq<Seq<char>>, present: Seq<bool>)
    requires
        ls.len() <= present.len(),
        forall|k: int| 0 <= k < ls.len() ==> #[trigger] present[k] && line_name(ls[k]) is Some,
    ensures
        kept_text(ls, present, None) == joined_lines(ls),
    decreases ls.len(),
{
    if ls.len() > 0 {
        let n = ls.len() - 1;
        assert(present[n] && line_name(ls[n]) is Some);
        lemma_present_entries_kept(ls.drop_last(), present);
    }
}

/// The cache line for a directory of `size` bytes whose `.trashinfo` was
/// modified at `mtime`, named `encoded`.
pub open spec fn entry_line(size: u64, mtime: u64, encoded: Seq<char>) -> Seq<char> {
    dec(size as nat) + seq![' '] + dec(mtime as nat) + seq![' '] + encoded + seq!['\n']
}

/// `directorysizes`.
pub open spec fn dirsizes_name() -> Seq<char> {
    seq!['d', 'i', 'r', 'e', 'c', 't', 'o', 'r', 'y', 's', 'i', 'z', 'e', 's']
}

/// The name of the directory for temporary files of this library.
pub open spec fn tool_dir_name() -> Seq<char> {
    seq!['t', 'r', 'a', 's', 'h', '-', 'r', 's']
}

/// Why the cache cannot be updated.
#[derive(Debug, Clone, Copy, PartialEq, Eq, Structural)]
pub enum DirSizesError {
    /// Something other than a file is in its place.
    NotAFile,
    /// The user may not replace it.
    NoPermission,
    /// Its place holds a link to nothing.
    BrokenLink,
}

/// Relies on rand::thread_rng and rand::Rng::gen_range: a number drawn from
/// `low..high`.
#[verifier::external_body]
fn random_in(low: u32, high: u32) -> (r: u32)
    requires
        low < high,
    ensures
        low <= r < high,
{
    rand::Rng::gen_range(&mut rand::thread_rng(), low..high)
}

/// For each line of the cache text `content`, the directory it is about, if
/// any. The caller tells which of them are still in `files`.
pub fn dirsizes_entries(content: &str) -> (r: Vec<Option<String>>)
    ensures
        r@.len() == lines(content@).len(),
        forall|i: int| 0 <= i < r@.len() ==> opt_view(#[trigger] r@[i]) == line_name(lines(content@)[i]),
{
    let cs = to_chars(content);
    let ls = lines_of(&cs);
    let ghost lv = views(ls@);
    let mut r: Vec<Option<String>> = Vec::new();
    let mut i: usize = 0;
    while i < ls.len()
        invariant
            lv == views(ls@),
            lv == lines(content@),
            i <= ls@.len(),
            r@.len() == i,
            forall|m: int| 0 <= m < i ==> opt_view(#[trigger] r@[m]) == line_name(lv[m]),
        decreases ls.len() - i,
    {
        let x = line_dir_name(&ls[i]);
        assert(lv[i as int] == ls@[i as int]@);
        r.push(x);
        i = i + 1;
    }
    r
}

/// The directory that the cache line `l` is about.
fn line_dir_name(l: &Vec<char>) -> (r: Option<String>)
    ensures
        opt_view(r) == line_name(l@),
{
    let w = words_of(l);
    if w.len() == 3 {
        assert(views(w@)[2] == w@[2]@);
        let enc = string_of(&w[2], 0, w[2].len());
        assert(w@[2]@.subrange(0, w@[2]@.len() as int) =~= w@[2]@);
        percent_decode(enc.as_str())
    } else {
        None
    }
}

/// The lines of `content` that stay, each ended by `\n`.
fn kept_lines(content: &str, present: &Vec<bool>, replaced: &Option<String>) -> (r: String)
    requires
        present@.len() == lines(content@).len(),
    ensures
        r@ == kept_text(lines(content@), present@, opt_view(*replaced)),
{
    let cs = to_chars(content);
    let ls = lines_of(&cs);
    let ghost lv = views(ls@);
    let mut r = String::new();
    let mut i: usize = 0;
    while i < ls.len()
        invariant
            lv == views(ls@),
            lv == lines(content@),
            present@.len() == lv.len(),
            i <= ls@.len(),
            r@ == kept_text(lv.subrange(0, i as int), present@, opt_view(*replaced)),
        decreases ls.len() - i,
    {
        let ghost pre = lv.subrange(0, i + 1);
        assert(pre.drop_last() =~= lv.subrange(0, i as int));
        assert(pre.last() == ls@[i as int]@);
        let name = line_dir_name(&ls[i]);
        let keep = match (&name, replaced) {
            (Some(f), Some(x)) => present[i] && *f != *x,
            (Some(_), None) => present[i],
            (None, _) => false,
        };
        assert(keep == line_kept(pre.last(), present@[i as int], opt_view(*replaced)));
        if keep {
            let l = string_of(&ls[i], 0, ls[i].len());
            assert(ls@[i as int]@.subrange(0, ls@[i as int]@.len() as int) =~= ls@[i as int]@);
            r.append(l.as_str());
            push_char(&mut r, '\n');
            assert(r@ =~= kept_text(pre, present@, opt_view(*replaced)));
        }
        i = i + 1;
    }
    assert(lv.subrange(0, i as int) =~= lv);
    r
}

impl TrashDirectory {
    /// Where this root's `directorysizes` is kept, where it may be updated:
    /// from what a look at `home/directorysizes` found (`st`), a regular file
    /// that the user may replace, or nothing, in which case the caller creates
    /// an empty file there.
    pub fn get_dirsizes_path(&self, st: &PathStatus) -> (r: Result<String, DirSizesError>)
        ensures
            st.exists && !st.is_file ==> r == Err::<String, DirSizesError>(DirSizesError::NotAFile),
            st.exists && st.is_file && !st.deletable ==> r == Err::<String, DirSizesError>(DirSizesError::NoPermission),
            !st.exists && st.is_symlink ==> r == Err::<String, DirSizesError>(DirSizesError::BrokenLink),
            (st.exists && st.is_file && st.deletable) || (!st.exists && !st.is_symlink) ==> (r matches Ok(p)
                && p@ == path_join(self.home@, dirsizes_name())),
    {
        if st.exists {
            if !st.is_file {
                return Err(DirSizesError::NotAFile);
            }
            if !st.deletable {
                return Err(DirSizesError::NoPermission);
            }
        } else if st.is_symlink {
            return Err(DirSizesError::BrokenLink);
        }
        let name = String::from_str("directorysizes");
        proof {
            reveal_strlit("directorysizes");
            assert(name@ =~= dirsizes_name());
        }
        Ok(join_path(self.home.as_str(), name.as_str()))
    }

    /// A fresh place for the new cache before it is renamed over the old one,
    /// on the same filesystem: under `temp_dir` for the home trash, else under
    /// the root itself. Gives the directory, which the caller makes sure of,
    /// and the file in it, `directorysizes-` and a random nine-digit number.
    pub fn dirsizes_temp_path(&self, temp_dir: &str) -> (r: (String, String))
        ensures
            r.0@ == path_join(
                if self.root_type == TrashRootType::Home { temp_dir@ } else { self.home@ },
                tool_dir_name(),
            ),
            exists|k: u32| 100000000 <= k < 999999999 && r.1@ == path_join(
                r.0@,
                dirsizes_name() + seq!['-'] + dec(k as nat),
            ),
    {
        let tool = String::from_str("trash-rs");
        proof {
            reveal_strlit("trash-rs");
            assert(tool@ =~= tool_dir_name());
        }
        let dir = match self.root_type {
            TrashRootType::Home => join_path(temp_dir, tool.as_str()),
            _ => join_path(self.home.as_str(), tool.as_str()),
        };
        let k = random_in(100000000, 999999999);
        let mut name = String::new();
        name.append("directorysizes-");
        push_decimal(&mut name, k as u64);
        proof {
            reveal_strlit("directorysizes-");
            assert(name@ =~= dirsizes_name() + seq!['-'] + dec(k as nat));
        }
        let file = join_path(dir.as_str(), name.as_str());
        (dir, file)
    }

    /// The cache text `content` rewritten after the directory `trash_file`
    /// was trashed: the lines about directories still in `files`
    /// (`present[i]` for line `i`) other than one of the same name, in order,
    /// then a line for it with its `size` and the `mtime` of its `.trashinfo`.
    /// Where the item in `files` is not a directory (`is_dir`, links not
    /// followed) there is nothing to record: none.
    pub fn add_dirsizes_entry(
        &self,
        trash_file: &TrashFile,
        is_dir: bool,
        content: &str,
        present: &Vec<bool>,
        size: u64,
        mtime: u64,
    ) -> (r: Result<Option<String>, TrashError>)
        requires
            present@.len() == lines(content@).len(),
        ensures
            match trash_file.files_entry {
                None => r == Err::<Option<String>, TrashError>(TrashError::Uninitialised),
                Some(f) => if !is_dir {
                    r == Ok::<Option<String>, TrashError>(None)
                } else {
                    match file_name(f@) {
                        None => r == Err::<Option<String>, TrashError>(TrashError::NoFileName),
                        Some(n) => r matches Ok(Some(c)) && c@ == kept_text(lines(content@), present@, Some(n))
                            + entry_line(size, mtime, url_encoded(n)),
                    }
                },
            },
    {
        let f = match &trash_file.files_entry {
            Some(f) => f,
            None => {
                return Err(TrashError::Uninitialised);
            },
        };
        if !is_dir {
            return Ok(None);
        }
        let name = match get_file_name(f.as_str()) {
            Some(n) => n,
            None => {
                return Err(TrashError::NoFileName);
            },
        };
        let encoded = percent_encode(name.as_str());
        let replaced = Some(name);
        let mut r = kept_lines(content, present, &replaced);
        push_decimal(&mut r, size);
        push_char(&mut r, ' ');
        push_decimal(&mut r, mtime);
        push_char(&mut r, ' ');
        r.append(encoded.as_str());
        push_char(&mut r, '\n');
        assert(r@ =~= kept_text(lines(content@), present@, opt_view(replaced))
            + entry_line(size, mtime, encoded@));
        Ok(Some(r))
    }

    /// The cache text `content` rewritten after a directory left the trash:
    /// the lines about directories still in `files` (`present[i]` for line
    /// `i`), in order.
    pub fn cleanup_dirsizes(&self, content: &str, present: &Vec<bool>) -> (r: String)
        requires
            present@.len() == lines(content@).len(),
        ensures
            r@ == kept_text(lines(content@), present@, None),
    {
        kept_lines(content, present, &None)
    }
}

} // verus!
