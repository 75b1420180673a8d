//! How a trashed item is shown to a person: its size and where it came from.
use vstd::prelude::*;
use crate::entry::TrashFile;
use crate::paths::{components, components_vec, is_abs, join_components, join_from, path_join};
use crate::root::TrashRootType;
use crate::text::{chars_eq, dec, push_char, push_decimal, string_of, to_chars, views};

verus! {

/// `n` bytes in the largest unit (decimal, truncated) that keeps the number
/// above one of the unit, up to gigabytes.
pub open spec fn size_text(n: u64) -> Seq<char> {
    if n <= 1000 {
        dec(n as nat) + seq!['B']
    } else if n <= 1000000 {
        dec((n / 1000) as nat) + seq!['K', 'B']
    } else if n <= 1000000000 {
        dec((n / 1000000) as nat) + seq!['M', 'B']
    } else {
        dec((n / 1000000000) as nat) + seq!['G', 'B']
    }
}

/// `n` bytes for a person to read: `999B`, `12KB`, `3MB`, `7GB`.
pub fn size_display(n: u64) -> (r: String)
    ensures
        r@ == size_text(n),
{
    let mut r = String::new();
    if n <= 1000 {
        push_decimal(&mut r, n);
        push_char(&mut r, 'B');
    } else if n <= 1000000 {
        push_decimal(&mut r, n / 1000);
        push_char(&mut r, 'K');
        push_char(&mut r, 'B');
    } else if n <= 1000000000 {
        push_decimal(&mut r, n / 1000000);
        push_char(&mut r, 'M');
        push_char(&mut r, 'B');
    } else {
        push_decimal(&mut r, n / 1000000000);
        push_char(&mut r, 'G');
        push_char(&mut r, 'B');
    }
    assert(r@ =~= size_text(n));
    r
}

/// The absolute path made of the components `cs`.
pub open spec fn abs_of(cs: Seq<Seq<char>>) -> Seq<char> {
    seq!['/'] + join_components(cs)
}

/// `path` with the home directory `home` at its start written as `~`, where
/// both are absolute and the components of `home` begin those of `path`.
pub open spec fn tilde_path(path: Seq<char>, home: Seq<char>) -> Seq<char> {
    let c = components(path);
    let h = components(home);
    if is_abs(path) && is_abs(home) && h.is_prefix_of(c) {
        if c.len() == h.len() {
            seq!['~']
        } else {
            seq!['~', '/'] + join_components(c.subrange(h.len() as int, c.len() as int))
        }
    } else {
        path
    }
}

/// The top directory of the mount that a trash root in `root_home` of kind
/// `kind` serves: the directory above `.Trash-$uid`, two above `.Trash/$uid`.
pub open spec fn topdir_of(root_home: Seq<char>, kind: TrashRootType) -> Seq<char> {
    let c = components(root_home);
    let up: int = if kind == TrashRootType::TopDirAdmin { 2 } else { 1 };
    if c.len() >= up {
        abs_of(c.subrange(0, c.len() - up))
    } else {
        seq!['/']
    }
}

/// Where a trashed item came from: its recorded path in the home trash,
/// else that path below the top directory of its mount.
pub open spec fn restore_target(f: TrashFile) -> Seq<char> {
    if f.trashroot.root_type == TrashRootType::Home {
        f.original_file@
    } else {
        path_join(topdir_of(f.trashroot.home@, f.trashroot.root_type), f.original_file@)
    }
}

/// Where a trashed item came from, for a person to read.
pub open spec fn origin_text(f: TrashFile, home: Option<Seq<char>>) -> Seq<char> {
    match (f.trashroot.root_type, home) {
        (TrashRootType::Home, Some(h)) => tilde_path(f.original_file@, h),
        _ => restore_target(f),
    }
}

/// The absolute path of the components `cs[..n]`.
fn abs_prefix(cs: &Vec<Vec<char>>, n: usize) -> (r: String)
    requires
        n <= cs@.len(),
    ensures
        r@ == abs_of(views(cs@).subrange(0, n as int)),
{
    let mut head: Vec<Vec<char>> = Vec::new();
    let mut i: usize = 0;
    while i < n
        invariant
            n <= cs@.len(),
            i <= n,
            views(head@) == views(cs@).subrange(0, i as int),
        decreases n - i,
    {
        let x = cs[i].clone();
        proof {
            crate::text::lemma_views_push(head@, x);
        }
        head.push(x);
        i = i + 1;
        assert(views(head@) =~= views(cs@).subrange(0, i as int));
    }
    let mut r = String::new();
    push_char(&mut r, '/');
    let rest = join_from(&head, 0);
    assert(views(head@).subrange(0, head@.len() as int) =~= views(head@));
    r.append(rest.as_str());
    r
}

impl TrashFile {
    /// Where the item came from, and goes back to when restored: in the home
    /// trash its recorded path; elsewhere that path below the top directory
    /// of its mount.
    pub fn restore_path(&self) -> (r: String)
        ensures
            r@ == restore_target(*self),
    {
        match self.trashroot.root_type {
            TrashRootType::Home => self.original_file.clone(),
            kind => {
                let rc = to_chars(self.trashroot.home.as_str());
                let comps = components_vec(&rc);
                let up: usize = match kind {
                    TrashRootType::TopDirAdmin => 2,
                    _ => 1,
                };
                let top = if comps.len() >= up {
                    abs_prefix(&comps, comps.len() - up)
                } else {
                    let mut s = String::new();
                    push_char(&mut s, '/');
                    s
                };
                crate::paths::join_path(top.as_str(), self.original_file.as_str())
            },
        }
    }

    /// Where the item came from, for a person to read: in the home trash its
    /// path with the home directory `home` (where known) written as `~`;
    /// elsewhere its recorded path below the top directory of its mount.
    pub fn original_path_display(&self, home: Option<&str>) -> (r: String)
        ensures
            r@ == origin_text(*self, match home {
                Some(h) => Some(h@),
                None => None,
            }),
    {
        match (self.trashroot.root_type, home) {
            (TrashRootType::Home, Some(h)) => tilde(self.original_file.as_str(), h),
            _ => self.restore_path(),
        }
    }
}

/// `path` with `home` at its start written as `~`.
fn tilde(path: &str, home: &str) -> (r: String)
    ensures
        r@ == tilde_path(path@, home@),
{
    let p = to_chars(path);
    let h = to_chars(home);
    let same = string_of(&p, 0, p.len());
    assert(p@.subrange(0, p@.len() as int) =~= p@);
    if !(p.len() > 0 && p[0] == '/' && h.len() > 0 && h[0] == '/') {
        return same;
    }
    let pc = components_vec(&p);
    let hc = components_vec(&h);
    if hc.len() > pc.len() {
        return same;
    }
    let mut i: usize = 0;
    while i < hc.len()
        invariant
            same@ == path@,
            is_abs(path@) && is_abs(home@),
            views(pc@) == components(path@),
            views(hc@) == components(home@),
            hc@.len() <= pc@.len(),
            i <= hc@.len(),
            forall|m: int| 0 <= m < i ==> views(hc@)[m] == views(pc@)[m],
        decreases hc.len() - i,
    {
        if !chars_eq(&hc[i], &pc[i]) {
            assert(views(pc@).subrange(0, hc@.len() as int)[i as int] != views(hc@)[i as int]);
            return same;
        }
        i = i + 1;
    }
    assert(views(pc@).subrange(0, hc@.len() as int) =~= views(hc@));
    let mut r = String::new();
    push_char(&mut r, '~');
    if pc.len() > hc.len() {
        push_char(&mut r, '/');
        let rest = join_from(&pc, hc.len());
        r.append(rest.as_str());
    }
    proof {
        if pc@.len() > hc@.len() {
            assert(r@ =~= seq!['~', '/'] + join_components(views(pc@).subrange(hc@.len() as int, pc@.len() as int)));
        } else {
            assert(r@ =~= seq!['~']);
        }
    }
    r
}

} // verus!
