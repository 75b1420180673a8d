//! The order in which trashed items are listed.
use vstd::prelude::*;
use std::cmp::Ordering;
use crate::entry::{TrashError, TrashFile};
use crate::paths::{file_name, get_file_name};

verus! {

/// How to order a list of trashed items.
#[derive(Debug, Clone, Copy, PartialEq, Eq, Structural)]
pub enum SortType {
    /// Newest deletion first; on the same date, directories first.
    DeletionDate,
    /// By the device of the trash root, higher ids first; then newest first.
    TrashRoot,
    /// Largest first; then newest first.
    Size,
    /// By the original file name, ignoring case.
    FileName,
}

/// `s` in lower case, as `str::to_lowercase` gives it.
pub uninterp spec fn lower_of(s: Seq<char>) -> Seq<char>;

/// Relies on str::to_lowercase: the result depends on the characters alone.
#[verifier::external_body]
fn lowercase(s: &str) -> (r: String)
    ensures
        r@ == lower_of(s@),
{
    s.to_lowercase()
}

/// What an item is ordered by.
#[derive(Debug, Clone)]
pub struct SortKey {
    /// The deletion date as recorded.
    pub deletion_date: String,
    pub is_dir: bool,
    /// The device id of the item's trash root.
    pub dev_id: u64,
    pub size: u64,
    /// The original file name in lower case.
    pub name: String,
}

/// Character sequences compared one character after another, a prefix
/// first: the order of `String`s.
pub open spec fn lex_cmp(a: Seq<char>, b: Seq<char>) -> Ordering
    decreases a.len(),
{
    if a.len() == 0 {
        if b.len() == 0 { Ordering::Equal } else { Ordering::Less }
    } else if b.len() == 0 {
        Ordering::Greater
    } else if a[0] < b[0] {
        Ordering::Less
    } else if a[0] > b[0] {
        Ordering::Greater
    } else {
        lex_cmp(a.drop_first(), b.drop_first())
    }
}

pub open spec fn num_cmp(a: u64, b: u64) -> Ordering {
    if a < b { Ordering::Less } else if a > b { Ordering::Greater } else { Ordering::Equal }
}

pub open spec fn reverse(o: Ordering) -> Ordering {
    match o {
        Ordering::Less => Ordering::Greater,
        Ordering::Greater => Ordering::Less,
        Ordering::Equal => Ordering::Equal,
    }
}

/// Where `a` stands relative to `b` in a list ordered by `t`.
#[verifier::opaque]
pub open spec fn key_cmp(a: SortKey, b: SortKey, t: SortType) -> Ordering {
    let by_date = lex_cmp(b.deletion_date@, a.deletion_date@);
    match t {
        SortType::DeletionDate => if by_date != Ordering::Equal {
            by_date
        } else if a.is_dir && !b.is_dir {
            Ordering::Less
        } else if !a.is_dir && b.is_dir {
            Ordering::Greater
        } else {
            Ordering::Equal
        },
        SortType::TrashRoot => if num_cmp(b.dev_id, a.dev_id) != Ordering::Equal {
            num_cmp(b.dev_id, a.dev_id)
        } else {
            by_date
        },
        SortType::Size => if num_cmp(b.size, a.size) != Ordering::Equal {
            num_cmp(b.size, a.size)
        } else {
            by_date
        },
        SortType::FileName => lex_cmp(a.name@, b.name@),
    }
}

pub proof fn lemma_lex_cmp_antisymmetric(a: Seq<char>, b: Seq<char>)
    ensures
        lex_cmp(b, a) == reverse(lex_cmp(a, b)),
    decreases a.len(),
{
    if a.len() > 0 && b.len() > 0 && a[0] == b[0] {
        lemma_lex_cmp_antisymmetric(a.drop_first(), b.drop_first());
    }
}

/// Swapping two items reverses where they stand.
pub proof fn lemma_key_cmp_antisymmetric(a: SortKey, b: SortKey, t: SortType)
    ensures
        key_cmp(b, a, t) == reverse(key_cmp(a, b, t)),
{
    reveal(key_cmp);
    lemma_lex_cmp_antisymmetric(a.deletion_date@, b.deletion_date@);
    lemma_lex_cmp_antisymmetric(a.name@, b.name@);
}

fn compare_chars(a: &String, b: &String) -> (r: Ordering)
    ensures
        r == lex_cmp(a@, b@),
{
    let x = crate::text::to_chars(a.as_str());
    let y = crate::text::to_chars(b.as_str());
    let mut i: usize = 0;
    assert(x@.subrange(0, x@.len() as int) =~= x@);
    assert(y@.subrange(0, y@.len() as int) =~= y@);
    while i < x.len() && i < y.len() && x[i] == y[i]
        invariant
            x@ == a@,
            y@ == b@,
            i <= x@.len(),
            i <= y@.len(),
            lex_cmp(a@, b@) == lex_cmp(x@.subrange(i as int, x@.len() as int), y@.subrange(
                i as int,
                y@.len() as int,
            )),
        decreases x.len() - i,
    {
        let ghost xs = x@.subrange(i as int, x@.len() as int);
        let ghost ys = y@.subrange(i as int, y@.len() as int);
        assert(xs.drop_first() =~= x@.subrange(i + 1, x@.len() as int));
        assert(ys.drop_first() =~= y@.subrange(i + 1, y@.len() as int));
        i = i + 1;
    }
    if i == x.len() {
        if i == y.len() { Ordering::Equal } else { Ordering::Less }
    } else if i == y.len() {
        Ordering::Greater
    } else if x[i] < y[i] {
        Ordering::Less
    } else {
        Ordering::Greater
    }
}

fn compare_nums(a: u64, b: u64) -> (r: Ordering)
    ensures
        r == num_cmp(a, b),
{
    if a < b { Ordering::Less } else if a > b { Ordering::Greater } else { Ordering::Equal }
}

fn is_equal(o: &Ordering) -> (r: bool)
    ensures
        r == (*o == Ordering::Equal),
{
    match o {
        Ordering::Equal => true,
        _ => false,
    }
}

impl SortKey {
    /// The key of a trashed item whose names are set, given whether it is a
    /// directory and its size.
    pub fn for_file(f: &TrashFile, is_dir: bool, size: u64) -> (r: Result<SortKey, TrashError>)
        ensures
            match (f.trashinfo, file_name(f.original_file@)) {
                (Some(t), Some(n)) => r matches Ok(k) && k.deletion_date@ == t.deletion_date@
                    && k.is_dir == is_dir && k.dev_id == f.trashroot.device.dev_num.dev_id
                    && k.size == size && k.name@ == lower_of(n),
                (None, _) => r == Err::<SortKey, TrashError>(TrashError::Uninitialised),
                (Some(_), None) => r == Err::<SortKey, TrashError>(TrashError::NoFileName),
            },
    {
        let t = match &f.trashinfo {
            Some(t) => t,
            None => {
                return Err(TrashError::Uninitialised);
            },
        };
        let n = match get_file_name(f.original_file.as_str()) {
            Some(n) => n,
            None => {
                return Err(TrashError::NoFileName);
            },
        };
        Ok(SortKey {
            deletion_date: t.deletion_date.clone(),
            is_dir,
            dev_id: f.trashroot.device.dev_num.dev_id,
            size,
            name: lowercase(n.as_str()),
        })
    }

    /// Where this item stands relative to `other` in a list ordered by `t`.
    pub fn compare(&self, other: &SortKey, t: SortType) -> (r: Ordering)
        ensures
            r == key_cmp(*self, *other, t),
    {
        reveal(key_cmp);
        let by_date = compare_chars(&other.deletion_date, &self.deletion_date);
        match t {
            SortType::DeletionDate => {
                if !is_equal(&by_date) {
                    by_date
                } else if self.is_dir && !other.is_dir {
                    Ordering::Less
                } else if !self.is_dir && other.is_dir {
                    Ordering::Greater
                } else {
                    Ordering::Equal
                }
            },
            SortType::TrashRoot => {
                let c = compare_nums(other.dev_id, self.dev_id);
                if !is_equal(&c) { c } else { by_date }
            },
            SortType::Size => {
                let c = compare_nums(other.size, self.size);
                if !is_equal(&c) { c } else { by_date }
            },
            SortType::FileName => compare_chars(&self.name, &other.name),
        }
    }
}

/// `order` lists each index below its length once.
pub open spec fn is_permutation(order: Seq<usize>) -> bool {
    &&& forall|k: int| 0 <= k < order.len() ==> #[trigger] order[k] < order.len()
    &&& forall|j: int, k: int| 0 <= j < k < order.len() ==> order[j] != order[k]
}

/// Listing `keys` in the order `order`, the item at `k` does not come after
/// the next one by `t`, and where the two tie, it came first in `keys`.
pub open spec fn in_order_at(keys: Seq<SortKey>, order: Seq<usize>, k: int, t: SortType) -> bool {
    &&& key_cmp(keys[order[k] as int], keys[order[k + 1] as int], t) != Ordering::Greater
    &&& key_cmp(keys[order[k] as int], keys[order[k + 1] as int], t) == Ordering::Equal ==> order[k]
        < order[k + 1]
}

/// Listing `keys` in the order `order`, no item comes after the next one by
/// `t`, and neighbours that tie keep their order in `keys`.
pub open spec fn is_sorted_by(keys: Seq<SortKey>, order: Seq<usize>, t: SortType) -> bool {
    forall|k: int| 0 <= k < order.len() - 1 ==> #[trigger] in_order_at(keys, order, k, t)
}

/// Putting `i` at `p` keeps a sorted order sorted where the item before `p`
/// does not come after it and every item from `p` on does.
proof fn lemma_insert_sorted(keys: Seq<SortKey>, old: Seq<usize>, p: int, i: usize, t: SortType)
    requires
        0 <= p <= old.len(),
        i < keys.len(),
        forall|k: int| 0 <= k < old.len() ==> #[trigger] old[k] < i,
        is_sorted_by(keys, old, t),
        p > 0 ==> key_cmp(keys[old[p - 1] as int], keys[i as int], t) != Ordering::Greater,
        p < old.len() ==> key_cmp(keys[old[p] as int], keys[i as int], t) == Ordering::Greater,
    ensures
        is_sorted_by(keys, old.insert(p, i), t),
{
    let new = old.insert(p, i);
    if p < old.len() {
        lemma_key_cmp_antisymmetric(keys[old[p] as int], keys[i as int], t);
    }
    assert forall|k: int| 0 <= k < new.len() - 1 implies #[trigger] in_order_at(keys, new, k, t) by {
        if k < p - 1 {
            assert(in_order_at(keys, old, k, t));
            assert(new[k] == old[k] && new[k + 1] == old[k + 1]);
        } else if k == p - 1 {
            assert(new[k] == old[k] && new[k + 1] == i);
        } else if k == p {
            assert(new[k] == i && new[k + 1] == old[k]);
        } else {
            assert(in_order_at(keys, old, k - 1, t));
            assert(new[k] == old[k - 1] && new[k + 1] == old[k]);
        }
    }
}

/// Putting the new index `i` anywhere keeps the indices below `i + 1` and
/// distinct.
proof fn lemma_insert_distinct(old: Seq<usize>, p: int, i: usize)
    requires
        0 <= p <= old.len(),
        old.len() == i,
        forall|k: int| 0 <= k < old.len() ==> #[trigger] old[k] < i,
        forall|j: int, k: int| 0 <= j < k < old.len() ==> old[j] != old[k],
    ensures
        forall|k: int| 0 <= k < old.insert(p, i).len() ==> #[trigger] old.insert(p, i)[k] < i + 1,
        forall|j: int, k: int| 0 <= j < k < old.insert(p, i).len() ==> old.insert(p, i)[j] != old.insert(p, i)[k],
{
    let new = old.insert(p, i);
    assert forall|k: int| 0 <= k < new.len() implies #[trigger] new[k] < i + 1 by {
        if k < p {
            assert(new[k] == old[k]);
        } else if k > p {
            assert(new[k] == old[k - 1]);
        }
    }
    assert forall|j: int, k: int| 0 <= j < k < new.len() implies new[j] != new[k] by {
        if j < p {
            assert(new[j] == old[j]);
        } else if j > p {
            assert(new[j] == old[j - 1]);
        }
        if k < p {
            assert(new[k] == old[k]);
        } else if k > p {
            assert(new[k] == old[k - 1]);
        }
    }
}

/// The order in which to list the items with keys `keys`, sorted by `t`: a
/// permutation of their indices in which no item is listed after the next
/// one; items that tie keep their order.
pub fn sort_file_list(keys: &Vec<SortKey>, sort_by: SortType) -> (r: Vec<usize>)
    ensures
        r@.len() == keys@.len(),
        is_permutation(r@),
        is_sorted_by(keys@, r@, sort_by),
{
    let mut order: Vec<usize> = Vec::new();
    let mut i: usize = 0;
    while i < keys.len()
        invariant
            i <= keys@.len(),
            order@.len() == i,
            forall|k: int| 0 <= k < order@.len() ==> #[trigger] order@[k] < i,
            forall|j: int, k: int| 0 <= j < k < order@.len() ==> order@[j] != order@[k],
            is_sorted_by(keys@, order@, sort_by),
        decreases keys.len() - i,
    {
        let mut p: usize = order.len();
        while p > 0 && matches!(keys[order[p - 1]].compare(&keys[i], sort_by), Ordering::Greater)
            invariant
                i < keys@.len(),
                order@.len() == i,
                p <= order@.len(),
                forall|k: int| 0 <= k < order@.len() ==> #[trigger] order@[k] < i,
                forall|q: int| p <= q < order@.len() ==> key_cmp(
                    keys@[#[trigger] order@[q] as int],
                    keys@[i as int],
                    sort_by,
                ) == Ordering::Greater,
            decreases p,
        {
            p = p - 1;
        }
        let ghost old_order = order@;
        proof {
            lemma_insert_sorted(keys@, old_order, p as int, i, sort_by);
            lemma_insert_distinct(old_order, p as int, i);
        }
        order.insert(p, i);
        i = i + 1;
    }
    order
}

} // verus!
