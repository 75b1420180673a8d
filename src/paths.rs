//! Paths as sequences of characters, with `/` as separator.
use vstd::prelude::*;
use crate::text::{
    chars_eq, push_char, split_chars, split_on, string_of, to_chars, views, lemma_views_push,
};

verus! {

/// `p` starts at the root directory.
pub open spec fn is_abs(p: Seq<char>) -> bool {
    p.len() > 0 && p[0] == '/'
}

/// `rest` appended to `base` as `PathBuf::push` does it: an absolute `rest`
/// replaces `base`, and a separator is put between them where `base` is not
/// empty and does not end in one.
pub open spec fn path_join(base: Seq<char>, rest: Seq<char>) -> Seq<char> {
    if is_abs(rest) {
        rest
    } else if base.len() == 0 {
        rest
    } else if base.last() == '/' {
        base + rest
    } else {
        base + seq!['/'] + rest
    }
}

/// A piece between separators that names a component: not empty and not `.`.
pub open spec fn is_component(x: Seq<char>) -> bool {
    x.len() > 0 && x != seq!['.']
}

/// The components named by the pieces `ps`, in order.
pub open spec fn components_of(ps: Seq<Seq<char>>) -> Seq<Seq<char>>
    decreases ps.len(),
{
    if ps.len() == 0 {
        seq![]
    } else if is_component(ps.last()) {
        components_of(ps.drop_last()).push(ps.last())
    } else {
        components_of(ps.drop_last())
    }
}

/// The components of `p` below the root: its pieces between separators,
/// without empty ones and `.`.
pub open spec fn components(p: Seq<char>) -> Seq<Seq<char>> {
    components_of(split_on(p, '/'))
}

/// The last component of `p`, as `Path::file_name` gives it: none where `p`
/// has no component or ends in `..`.
pub open spec fn file_name(p: Seq<char>) -> Option<Seq<char>> {
    let cs = components(p);
    if cs.len() == 0 || cs.last() == seq!['.', '.'] {
        None
    } else {
        Some(cs.last())
    }
}

/// The components `cs` joined by separators.
pub open spec fn join_components(cs: Seq<Seq<char>>) -> Seq<char>
    decreases cs.len(),
{
    if cs.len() == 0 {
        seq![]
    } else if cs.len() == 1 {
        cs[0]
    } else {
        join_components(cs.drop_last()) + seq!['/'] + cs.last()
    }
}

/// `child` relative to `parent`: defined where both are absolute and the
/// components of `parent` begin those of `child`; it is the rest of the
/// components of `child`, joined by separators.
pub open spec fn relative_to(child: Seq<char>, parent: Seq<char>) -> Option<Seq<char>> {
    let c = components(child);
    let p = components(parent);
    if is_abs(child) && is_abs(parent) && p.is_prefix_of(c) {
        Some(join_components(c.subrange(p.len() as int, c.len() as int)))
    } else {
        None
    }
}

/// Why a path could not be made relative.
#[derive(Debug, Clone, Copy, PartialEq, Eq, Structural)]
pub enum PathError {
    /// One of the two paths is not absolute.
    NotAbsolute,
    /// The child does not lie under the parent.
    NotUnder,
}

/// `a + b`.
pub(crate) fn concat(a: &Vec<char>, b: &Vec<char>) -> (r: Vec<char>)
    ensures
        r@ == a@ + b@,
{
    let mut r = a.clone();
    let mut i: usize = 0;
    while i < b.len()
        invariant
            i <= b@.len(),
            r@ == a@ + b@.subrange(0, i as int),
        decreases b.len() - i,
    {
        r.push(b[i]);
        i = i + 1;
        assert(r@ =~= a@ + b@.subrange(0, i as int));
    }
    assert(b@.subrange(0, b@.len() as int) =~= b@);
    r
}

/// `rest` appended to `base` as a path.
pub fn join_path(base: &str, rest: &str) -> (r: String)
    ensures
        r@ == path_join(base@, rest@),
{
    let b = to_chars(base);
    let x = to_chars(rest);
    if x.len() > 0 && x[0] == '/' {
        return string_of(&x, 0, x.len());
    }
    if b.len() == 0 {
        return string_of(&x, 0, x.len());
    }
    let mut r = string_of(&b, 0, b.len());
    if b[b.len() - 1] != '/' {
        push_char(&mut r, '/');
    }
    let t = string_of(&x, 0, x.len());
    r.append(t.as_str());
    assert(b@.subrange(0, b@.len() as int) =~= b@);
    assert(x@.subrange(0, x@.len() as int) =~= x@);
    r
}

/// The components of `p`.
pub fn components_vec(p: &Vec<char>) -> (r: Vec<Vec<char>>)
    ensures
        views(r@) == components(p@),
{
    let ps = split_chars(p, '/');
    let ghost pv = views(ps@);
    let mut r: Vec<Vec<char>> = Vec::new();
    let mut i: usize = 0;
    while i < ps.len()
        invariant
            pv == views(ps@),
            pv == split_on(p@, '/'),
            i <= ps@.len(),
            views(r@) == components_of(pv.subrange(0, i as int)),
        decreases ps.len() - i,
    {
        let x = &ps[i];
        assert(pv.subrange(0, i + 1).drop_last() =~= pv.subrange(0, i as int));
        assert(x@ == pv[i as int]);
        let is_dot = x.len() == 1 && x[0] == '.';
        proof {
            if x@ == seq!['.'] {
                assert(x@[0] == '.');
            }
            if x@.len() == 1 && x@[0] == '.' {
                assert(x@ =~= seq!['.']);
            }
        }
        if x.len() > 0 && !is_dot {
            let y = x.clone();
            proof {
                lemma_views_push(r@, y);
            }
            r.push(y);
        }
        i = i + 1;
    }
    assert(pv.subrange(0, ps@.len() as int) =~= pv);
    r
}

/// The last component of `p`, where it has one that is not `..`.
pub fn get_file_name(p: &str) -> (r: Option<String>)
    ensures
        r matches Some(v) ==> file_name(p@) == Some(v@),
        r is None ==> file_name(p@) is None,
{
    let cs = to_chars(p);
    let comps = components_vec(&cs);
    let n = comps.len();
    if n == 0 {
        return None;
    }
    let last = &comps[n - 1];
    assert(last@ == components(p@).last());
    if last.len() == 2 && last[0] == '.' && last[1] == '.' {
        assert(last@ =~= seq!['.', '.']);
        return None;
    }
    proof {
        if last@ == seq!['.', '.'] {
            assert(last@[0] == '.' && last@[1] == '.');
        }
    }
    Some(string_of(last, 0, last.len()))
}

/// The components `cs[from..]` joined by separators.
pub(crate) fn join_from(cs: &Vec<Vec<char>>, from: usize) -> (r: String)
    requires
        from <= cs@.len(),
    ensures
        r@ == join_components(views(cs@).subrange(from as int, cs@.len() as int)),
{
    let ghost v = views(cs@);
    let mut r = String::new();
    let mut i: usize = from;
    while i < cs.len()
        invariant
            v == views(cs@),
            from <= i <= cs@.len(),
            r@ == join_components(v.subrange(from as int, i as int)),
        decreases cs.len() - i,
    {
        let x = &cs[i];
        assert(v.subrange(from as int, i + 1).drop_last() =~= v.subrange(from as int, i as int));
        if i > from {
            push_char(&mut r, '/');
        }
        let t = string_of(x, 0, x.len());
        assert(x@.subrange(0, x@.len() as int) =~= x@);
        r.append(t.as_str());
        i = i + 1;
        proof {
            let s = v.subrange(from as int, i as int);
            if s.len() == 1 {
                assert(r@ =~= s[0]);
            } else {
                assert(r@ =~= join_components(s.drop_last()) + seq!['/'] + s.last());
            }
        }
    }
    r
}

/// `child` relative to `parent`.
pub fn get_path_relative_to(child: &str, parent: &str) -> (r: Result<String, PathError>)
    ensures
        !(is_abs(child@) && is_abs(parent@)) <==> r == Err::<String, PathError>(PathError::NotAbsolute),
        r matches Ok(v) ==> relative_to(child@, parent@) == Some(v@),
        r == Err::<String, PathError>(PathError::NotUnder) ==> relative_to(child@, parent@) is None,
        relative_to(child@, parent@) is Some ==> r is Ok,
{
    let c = to_chars(child);
    let p = to_chars(parent);
    if !(c.len() > 0 && c[0] == '/' && p.len() > 0 && p[0] == '/') {
        return Err(PathError::NotAbsolute);
    }
    let cc = components_vec(&c);
    let pc = components_vec(&p);
    if pc.len() > cc.len() {
        return Err(PathError::NotUnder);
    }
    let mut i: usize = 0;
    while i < pc.len()
        invariant
            is_abs(child@) && is_abs(parent@),
            views(cc@) == components(child@),
            views(pc@) == components(parent@),
            pc@.len() <= cc@.len(),
            i <= pc@.len(),
            forall|m: int| 0 <= m < i ==> views(pc@)[m] == views(cc@)[m],
        decreases pc.len() - i,
    {
        if !chars_eq(&pc[i], &cc[i]) {
            proof {
                assert(views(pc@)[i as int] != views(cc@)[i as int]);
                assert(!views(pc@).is_prefix_of(views(cc@)));
            }
            return Err(PathError::NotUnder);
        }
        i = i + 1;
    }
    assert(views(pc@).is_prefix_of(views(cc@))) by {
        assert(views(cc@).subrange(0, views(pc@).len() as int) =~= views(pc@));
    }
    Ok(join_from(&cc, pc.len()))
}

/// `path` made absolute against the working directory `cwd`, without
/// following links: an absolute path stays as it is; a leading `./` is dropped
/// before the rest is joined to `cwd`.
pub open spec fn abs_path(path: Seq<char>, cwd: Seq<char>) -> Seq<char> {
    if is_abs(path) {
        path
    } else if seq!['.', '/'].is_prefix_of(path) {
        path_join(cwd, path.subrange(2, path.len() as int))
    } else {
        path_join(cwd, path)
    }
}

/// `path` made absolute against the working directory `cwd`.
pub fn to_abs_path(path: &str, cwd: &str) -> (r: String)
    ensures
        r@ == abs_path(path@, cwd@),
{
    let p = to_chars(path);
    if p.len() > 0 && p[0] == '/' {
        let r = string_of(&p, 0, p.len());
        assert(p@.subrange(0, p@.len() as int) =~= p@);
        return r;
    }
    if p.len() >= 2 && p[0] == '.' && p[1] == '/' {
        let rest = string_of(&p, 2, p.len());
        proof {
            assert(seq!['.', '/'].is_prefix_of(p@)) by {
                assert(p@.subrange(0, 2) =~= seq!['.', '/']);
            }
        }
        return join_path(cwd, rest.as_str());
    }
    proof {
        if seq!['.', '/'].is_prefix_of(p@) {
            assert(p@.subrange(0, 2)[0] == '.');
            assert(p@.subrange(0, 2)[1] == '/');
        }
    }
    join_path(cwd, path)
}

} // verus!
