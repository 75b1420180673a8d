//! Characters and strings: decimal rendering, whitespace, splitting.
use vstd::prelude::*;
use vstd::string::*;

verus! {

/// The ASCII digit for `d`, which is below ten.
pub open spec fn digit_char(d: nat) -> char {
    ((d + 48) as u8) as char
}

/// The decimal rendering of `n`, without sign or leading zeros.
pub open spec fn dec(n: nat) -> Seq<char>
    decreases n,
{
    if n < 10 {
        seq![digit_char(n)]
    } else {
        dec(n / 10).push(digit_char(n % 10))
    }
}

/// Relies on String::push: the character is appended at the end.
#[verifier::external_body]
pub(crate) fn push_char(s: &mut String, c: char)
    ensures
        final(s)@ == old(s)@.push(c),
{
    s.push(c)
}

fn digit(d: u64) -> (c: char)
    requires
        d < 10,
    ensures
        c == digit_char(d as nat),
{
    if d == 0 { '0' }
    else if d == 1 { '1' }
    else if d == 2 { '2' }
    else if d == 3 { '3' }
    else if d == 4 { '4' }
    else if d == 5 { '5' }
    else if d == 6 { '6' }
    else if d == 7 { '7' }
    else if d == 8 { '8' }
    else { '9' }
}

/// Appends the decimal rendering of `n`.
pub(crate) fn push_decimal(s: &mut String, n: u64)
    ensures
        final(s)@ == old(s)@ + dec(n as nat),
    decreases n,
{
    if n >= 10 {
        push_decimal(s, n / 10);
    }
    push_char(s, digit(n % 10));
    assert(final(s)@ == old(s)@ + dec(n as nat));
}

/// The decimal rendering of `n`.
pub fn decimal_string(n: u64) -> (r: String)
    ensures
        r@ == dec(n as nat),
{
    let mut s = String::new();
    push_decimal(&mut s, n);
    assert(s@ =~= dec(n as nat));
    s
}

/// The characters of `s`, in order.
pub fn to_chars(s: &str) -> (r: Vec<char>)
    ensures
        r@ == s@,
{
    let n = s.unicode_len();
    let mut r: Vec<char> = Vec::new();
    let mut i: usize = 0;
    while i < n
        invariant
            n == s@.len(),
            i <= n,
            r@ == s@.subrange(0, i as int),
        decreases n - i,
    {
        r.push(s.get_char(i));
        i = i + 1;
    }
    assert(r@ =~= s@);
    r
}

/// A `String` holding the characters `cs[from..to]`.
pub(crate) fn string_of(cs: &Vec<char>, from: usize, to: usize) -> (r: String)
    requires
        from <= to <= cs@.len(),
    ensures
        r@ == cs@.subrange(from as int, to as int),
{
    let mut r = String::new();
    let mut i: usize = from;
    while i < to
        invariant
            from <= i <= to <= cs@.len(),
            r@ == cs@.subrange(from as int, i as int),
        decreases to - i,
    {
        push_char(&mut r, cs[i]);
        i = i + 1;
        assert(r@ =~= cs@.subrange(from as int, i as int));
    }
    r
}


/// `c` is white space in the sense of Unicode's White_Space property, as
/// `char::is_whitespace` decides it.
pub open spec fn is_ws(c: char) -> bool {
    ('\u{9}' <= c && c <= '\u{d}') || c == ' ' || c == '\u{85}' || c == '\u{a0}'
        || c == '\u{1680}' || ('\u{2000}' <= c && c <= '\u{200a}') || c == '\u{2028}'
        || c == '\u{2029}' || c == '\u{202f}' || c == '\u{205f}' || c == '\u{3000}'
}

/// Decides `is_ws`.
pub fn is_whitespace(c: char) -> (r: bool)
    ensures
        r == is_ws(c),
{
    ('\u{9}' <= c && c <= '\u{d}') || c == ' ' || c == '\u{85}' || c == '\u{a0}'
        || c == '\u{1680}' || ('\u{2000}' <= c && c <= '\u{200a}') || c == '\u{2028}'
        || c == '\u{2029}' || c == '\u{202f}' || c == '\u{205f}' || c == '\u{3000}'
}

/// The first index at or after `i` that holds `sep`, or the length of `s`.
pub open spec fn find_from(s: Seq<char>, i: int, sep: char) -> int
    decreases s.len() - i,
{
    if i < 0 || i >= s.len() {
        s.len() as int
    } else if s[i] == sep {
        i
    } else {
        find_from(s, i + 1, sep)
    }
}

/// The first index at or after `i` whose character is white space exactly
/// when `ws` holds, or the length of `s`.
pub open spec fn find_ws_from(s: Seq<char>, i: int, ws: bool) -> int
    decreases s.len() - i,
{
    if i < 0 || i >= s.len() {
        s.len() as int
    } else if is_ws(s[i]) == ws {
        i
    } else {
        find_ws_from(s, i + 1, ws)
    }
}

pub proof fn lemma_find_from(s: Seq<char>, i: int, k: int, sep: char)
    requires
        0 <= i <= k <= s.len(),
        forall|m: int| i <= m < k ==> #[trigger] s[m] != sep,
        k == s.len() || s[k] == sep,
    ensures
        find_from(s, i, sep) == k,
    decreases k - i,
{
    if i < k {
        lemma_find_from(s, i + 1, k, sep);
    }
}

pub proof fn lemma_find_ws_from(s: Seq<char>, i: int, k: int, ws: bool)
    requires
        0 <= i <= k <= s.len(),
        forall|m: int| i <= m < k ==> is_ws(#[trigger] s[m]) != ws,
        k == s.len() || is_ws(s[k]) == ws,
    ensures
        find_ws_from(s, i, ws) == k,
    decreases k - i,
{
    if i < k {
        lemma_find_ws_from(s, i + 1, k, ws);
    }
}

/// Splitting at the first `sep` from `i`, found at `j`.
pub proof fn lemma_split_step(s: Seq<char>, i: int, j: int, sep: char)
    requires
        0 <= i <= j < s.len(),
        s[j] == sep,
        forall|m: int| i <= m < j ==> #[trigger] s[m] != sep,
    ensures
        split_from(s, i, sep) == seq![s.subrange(i, j)] + split_from(s, j + 1, sep),
{
    lemma_find_from(s, i, j, sep);
}

/// Splitting from `i` where no `sep` follows.
pub proof fn lemma_split_last(s: Seq<char>, i: int, sep: char)
    requires
        0 <= i <= s.len(),
        forall|m: int| i <= m < s.len() ==> #[trigger] s[m] != sep,
    ensures
        split_from(s, i, sep) == seq![s.subrange(i, s.len() as int)],
{
    lemma_find_from(s, i, s.len() as int, sep);
}

/// The pieces `qs` joined with `sep` between them; the inverse of `split_on`.
pub open spec fn join_with(qs: Seq<Seq<char>>, sep: char) -> Seq<char>
    decreases qs.len(),
{
    if qs.len() == 0 {
        seq![]
    } else if qs.len() == 1 {
        qs[0]
    } else {
        qs[0] + seq![sep] + join_with(qs.drop_first(), sep)
    }
}

pub proof fn lemma_find_shift(a: Seq<char>, b: Seq<char>, i: int, sep: char)
    requires
        0 <= i <= b.len(),
    ensures
        find_from(a + b, a.len() + i, sep) == a.len() + find_from(b, i, sep),
    decreases b.len() - i,
{
    if i < b.len() {
        assert((a + b)[a.len() + i] == b[i]);
        if b[i] != sep {
            lemma_find_shift(a, b, i + 1, sep);
        }
    }
}

pub proof fn lemma_split_shift(a: Seq<char>, b: Seq<char>, i: int, sep: char)
    requires
        0 <= i <= b.len(),
    ensures
        split_from(a + b, a.len() + i, sep) == split_from(b, i, sep),
    decreases b.len() - i,
{
    let s = a + b;
    lemma_find_shift(a, b, i, sep);
    lemma_first_found(b, i, sep);
    let j = find_from(b, i, sep);
    if j < b.len() {
        lemma_split_shift(a, b, j + 1, sep);
        assert(s.subrange(a.len() + i, a.len() + j) =~= b.subrange(i, j));
    } else {
        assert(s.subrange(a.len() + i, s.len() as int) =~= b.subrange(i, b.len() as int));
    }
}

/// The search from `i` stays within `s`.
pub proof fn lemma_first_found(s: Seq<char>, i: int, sep: char)
    requires
        0 <= i <= s.len(),
    ensures
        i <= find_from(s, i, sep) <= s.len(),
        find_from(s, i, sep) < s.len() ==> s[find_from(s, i, sep)] == sep,
        forall|m: int| i <= m < find_from(s, i, sep) ==> #[trigger] s[m] != sep,
    decreases s.len() - i,
{
    if i < s.len() && s[i] != sep {
        lemma_first_found(s, i + 1, sep);
    }
}

/// Splitting pieces joined by `sep`, none of which holds `sep`, gives them back.
pub proof fn lemma_split_join(qs: Seq<Seq<char>>, sep: char)
    requires
        qs.len() >= 1,
        forall|k: int, m: int| 0 <= k < qs.len() && 0 <= m < qs[k].len() ==> #[trigger] qs[k][m] != sep,
    ensures
        split_on(join_with(qs, sep), sep) == qs,
    decreases qs.len(),
{
    let q0 = qs[0];
    if qs.len() == 1 {
        assert forall|m: int| 0 <= m < q0.len() implies #[trigger] q0[m] != sep by {
            assert(qs[0][m] != sep);
        }
        lemma_split_last(q0, 0, sep);
        assert(q0.subrange(0, q0.len() as int) =~= q0);
        assert(qs =~= seq![q0]);
    } else {
        let rest = qs.drop_first();
        assert forall|k: int, m: int| 0 <= k < rest.len() && 0 <= m < rest[k].len() implies #[trigger] rest[k][m] != sep by {
            assert(rest[k] == qs[k + 1]);
        }
        lemma_split_join(rest, sep);
        let j = join_with(rest, sep);
        let s = join_with(qs, sep);
        assert(s == q0 + seq![sep] + j);
        assert forall|m: int| 0 <= m < q0.len() implies #[trigger] s[m] != sep by {
            assert(s[m] == q0[m]);
            assert(qs[0][m] != sep);
        }
        lemma_split_step(s, 0, q0.len() as int, sep);
        assert(s.subrange(0, q0.len() as int) =~= q0);
        assert(s =~= (q0 + seq![sep]) + j);
        lemma_split_shift(q0 + seq![sep], j, 0, sep);
        assert(split_on(s, sep) =~= seq![q0] + rest);
        assert(qs =~= seq![q0] + rest);
    }
}

/// Joining the pieces of `s[i..]` between occurrences of `sep` with `sep`
/// gives `s[i..]` back.
pub proof fn lemma_join_split_from(s: Seq<char>, i: int, sep: char)
    requires
        0 <= i <= s.len(),
    ensures
        join_with(split_from(s, i, sep), sep) == s.subrange(i, s.len() as int),
        split_from(s, i, sep).len() >= 1,
    decreases s.len() - i,
{
    lemma_first_found(s, i, sep);
    let j = find_from(s, i, sep);
    if j < s.len() {
        lemma_join_split_from(s, j + 1, sep);
        let rest = split_from(s, j + 1, sep);
        let all = seq![s.subrange(i, j)] + rest;
        assert(all.drop_first() =~= rest);
        assert(all[0] == s.subrange(i, j));
        assert(join_with(all, sep) == s.subrange(i, j) + seq![sep] + join_with(rest, sep));
        assert(s.subrange(i, s.len() as int) =~= s.subrange(i, j) + seq![sep] + s.subrange(j + 1, s.len() as int));
    }
}

/// Joining with `sep` one piece more.
pub proof fn lemma_join_push(qs: Seq<Seq<char>>, x: Seq<char>, sep: char)
    requires
        qs.len() >= 1,
    ensures
        join_with(qs.push(x), sep) == join_with(qs, sep) + seq![sep] + x,
    decreases qs.len(),
{
    let p = qs.push(x);
    assert(p[0] == qs[0]);
    if qs.len() == 1 {
        assert(p.drop_first() =~= seq![x]);
        assert(join_with(p.drop_first(), sep) == x);
    } else {
        lemma_join_push(qs.drop_first(), x, sep);
        assert(p.drop_first() =~= qs.drop_first().push(x));
        assert(join_with(qs, sep) == qs[0] + seq![sep] + join_with(qs.drop_first(), sep));
        assert(join_with(p, sep) =~= join_with(qs, sep) + seq![sep] + x);
    }
}

/// The views of a sequence of character vectors.
pub open spec fn views(v: Seq<Vec<char>>) -> Seq<Seq<char>> {
    v.map_values(|x: Vec<char>| x@)
}

pub proof fn lemma_views_push(v: Seq<Vec<char>>, x: Vec<char>)
    ensures
        views(v.push(x)) == views(v).push(x@),
{
    assert(views(v.push(x)) =~= views(v).push(x@));
}

/// The pieces of `s[i..]` between occurrences of `sep`, as `str::split` gives them.
pub open spec fn split_from(s: Seq<char>, i: int, sep: char) -> Seq<Seq<char>>
    decreases s.len() - i,
{
    let j = find_from(s, i, sep);
    if i < 0 || i > s.len() || j >= s.len() || j < i {
        seq![s.subrange(i, s.len() as int)]
    } else {
        seq![s.subrange(i, j)] + split_from(s, j + 1, sep)
    }
}

/// The pieces of `s` between occurrences of `sep`.
pub open spec fn split_on(s: Seq<char>, sep: char) -> Seq<Seq<char>> {
    split_from(s, 0, sep)
}

/// `l` without one trailing carriage return.
pub open spec fn strip_cr(l: Seq<char>) -> Seq<char> {
    if l.len() > 0 && l.last() == '\r' { l.drop_last() } else { l }
}

/// The lines of `s`, as `str::lines` gives them: split at `\n`, a `\r` before
/// the `\n` removed, and no empty line after a final `\n`.
pub open spec fn lines(s: Seq<char>) -> Seq<Seq<char>> {
    let p = split_on(s, '\n');
    let body = p.drop_last().map_values(|l: Seq<char>| strip_cr(l));
    if p.last().len() == 0 { body } else { body.push(p.last()) }
}

/// The white-space separated words of `s[i..]`, as `str::split_whitespace` gives them.
pub open spec fn words_from(s: Seq<char>, i: int) -> Seq<Seq<char>>
    decreases s.len() - i,
{
    let k = find_ws_from(s, i, false);
    let j = find_ws_from(s, k, true);
    if i < 0 || k >= s.len() || k < i || j <= k || j > s.len() {
        seq![]
    } else {
        seq![s.subrange(k, j)] + words_from(s, j)
    }
}

/// The white-space separated words of `s`.
pub open spec fn words(s: Seq<char>) -> Seq<Seq<char>> {
    words_from(s, 0)
}

/// The index after the last character of `s[..j]` that is not white space.
pub open spec fn trim_end_index(s: Seq<char>, j: int) -> int
    decreases j,
{
    if j <= 0 {
        0
    } else if is_ws(s[j - 1]) {
        trim_end_index(s, j - 1)
    } else {
        j
    }
}

/// `s` without leading and trailing white space, as `str::trim` gives it.
pub open spec fn trim(s: Seq<char>) -> Seq<char> {
    let k = find_ws_from(s, 0, false);
    let j = trim_end_index(s, s.len() as int);
    if k >= j { seq![] } else { s.subrange(k, j) }
}

/// The pieces of `cs` between occurrences of `sep`.
pub fn split_chars(cs: &Vec<char>, sep: char) -> (r: Vec<Vec<char>>)
    ensures
        views(r@) == split_on(cs@, sep),
{
    let ghost s = cs@;
    let mut r: Vec<Vec<char>> = Vec::new();
    let mut i: usize = 0;
    let mut cur: Vec<char> = Vec::new();
    let mut k: usize = 0;
    while k < cs.len()
        invariant
            s == cs@,
            i <= k <= cs@.len(),
            cur@ == s.subrange(i as int, k as int),
            forall|m: int| i <= m < k ==> #[trigger] s[m] != sep,
            views(r@) + split_from(s, i as int, sep) == split_on(s, sep),
        decreases cs.len() - k,
    {
        if cs[k] == sep {
            proof {
                lemma_find_from(s, i as int, k as int, sep);
                lemma_views_push(r@, cur);
            }
            let ghost old_r = views(r@);
            r.push(cur);
            assert(split_from(s, i as int, sep) == seq![s.subrange(i as int, k as int)]
                + split_from(s, k + 1, sep));
            assert(views(r@) + split_from(s, k + 1, sep) =~= old_r + split_from(s, i as int, sep));
            cur = Vec::new();
            i = k + 1;
            k = k + 1;
            assert(cur@ =~= s.subrange(i as int, k as int));
        } else {
            cur.push(cs[k]);
            k = k + 1;
            assert(cur@ =~= s.subrange(i as int, k as int));
        }
    }
    proof {
        lemma_find_from(s, i as int, k as int, sep);
        lemma_views_push(r@, cur);
    }
    let ghost old_r = views(r@);
    r.push(cur);
    assert(split_from(s, i as int, sep) == seq![s.subrange(i as int, s.len() as int)]);
    assert(views(r@) =~= old_r + split_from(s, i as int, sep));
    r
}


/// The lines of `cs`.
pub fn lines_of(cs: &Vec<char>) -> (r: Vec<Vec<char>>)
    ensures
        views(r@) == lines(cs@),
{
    let p = split_chars(cs, '\n');
    let ghost ps = split_on(cs@, '\n');
    let n = p.len();
    assert(ps.len() > 0);
    assert(views(p@).len() == p@.len());
    let mut r: Vec<Vec<char>> = Vec::new();
    let mut i: usize = 0;
    while i + 1 < n
        invariant
            n == p@.len(),
            n > 0,
            views(p@) == ps,
            i <= n - 1,
            views(r@) == ps.drop_last().subrange(0, i as int).map_values(|l: Seq<char>| strip_cr(l)),
        decreases n - i,
    {
        let l = &p[i];
        let mut m = l.len();
        if m > 0 && l[m - 1] == '\r' {
            m = m - 1;
        }
        let mut x: Vec<char> = Vec::new();
        let mut k: usize = 0;
        while k < m
            invariant
                m <= l@.len(),
                k <= m,
                x@ == l@.subrange(0, k as int),
            decreases m - k,
        {
            x.push(l[k]);
            k = k + 1;
            assert(x@ =~= l@.subrange(0, k as int));
        }
        assert(l@ == ps[i as int]);
        assert(x@ == strip_cr(ps[i as int]));
        proof {
            lemma_views_push(r@, x);
        }
        r.push(x);
        i = i + 1;
        assert(views(r@) =~= ps.drop_last().subrange(0, i as int).map_values(|l: Seq<char>| strip_cr(l)));
    }
    assert(ps.drop_last().subrange(0, i as int) =~= ps.drop_last());
    let last = &p[n - 1];
    assert(last@ == ps.last());
    if last.len() > 0 {
        let x = last.clone();
        proof {
            lemma_views_push(r@, x);
        }
        r.push(x);
    }
    r
}

/// The white-space separated words of `cs`.
pub fn words_of(cs: &Vec<char>) -> (r: Vec<Vec<char>>)
    ensures
        views(r@) == words(cs@),
{
    let ghost s = cs@;
    let n = cs.len();
    let mut r: Vec<Vec<char>> = Vec::new();
    let mut i: usize = 0;
    while i < n
        invariant
            s == cs@,
            n == s.len(),
            i <= n,
            views(r@) + words_from(s, i as int) == words(s),
        decreases n - i,
    {
        let mut k: usize = i;
        while k < n && is_whitespace(cs[k])
            invariant
                s == cs@,
                n == s.len(),
                i <= k <= n,
                forall|m: int| i <= m < k ==> is_ws(#[trigger] s[m]),
            decreases n - k,
        {
            k = k + 1;
        }
        proof {
            lemma_find_ws_from(s, i as int, k as int, false);
        }
        if k == n {
            assert(words_from(s, i as int) == Seq::<Seq<char>>::empty());
            i = n;
            assert(words_from(s, i as int) == Seq::<Seq<char>>::empty());
        } else {
            let mut j: usize = k;
            let mut x: Vec<char> = Vec::new();
            while j < n && !is_whitespace(cs[j])
                invariant
                    s == cs@,
                    n == s.len(),
                    k <= j <= n,
                    x@ == s.subrange(k as int, j as int),
                    forall|m: int| k <= m < j ==> !is_ws(#[trigger] s[m]),
                decreases n - j,
            {
                x.push(cs[j]);
                j = j + 1;
                assert(x@ =~= s.subrange(k as int, j as int));
            }
            proof {
                lemma_find_ws_from(s, k as int, j as int, true);
                lemma_views_push(r@, x);
            }
            let ghost old_r = views(r@);
            r.push(x);
            assert(words_from(s, i as int) == seq![s.subrange(k as int, j as int)] + words_from(s, j as int));
            assert(views(r@) + words_from(s, j as int) =~= old_r + words_from(s, i as int));
            i = j;
        }
    }
    assert(words_from(s, i as int) == Seq::<Seq<char>>::empty());
    assert(views(r@) =~= words(s));
    r
}

/// `cs` without leading and trailing white space.
pub fn trim_chars(cs: &Vec<char>) -> (r: Vec<char>)
    ensures
        r@ == trim(cs@),
{
    let ghost s = cs@;
    let n = cs.len();
    let mut k: usize = 0;
    while k < n && is_whitespace(cs[k])
        invariant
            s == cs@,
            n == s.len(),
            k <= n,
            forall|m: int| 0 <= m < k ==> is_ws(#[trigger] s[m]),
        decreases n - k,
    {
        k = k + 1;
    }
    proof {
        lemma_find_ws_from(s, 0, k as int, false);
    }
    let mut j: usize = n;
    while j > 0 && is_whitespace(cs[j - 1])
        invariant
            s == cs@,
            n == s.len(),
            j <= n,
            trim_end_index(s, j as int) == trim_end_index(s, n as int),
        decreases j,
    {
        j = j - 1;
    }
    assert(trim_end_index(s, j as int) == j);
    let mut r: Vec<char> = Vec::new();
    if k < j {
        let mut m: usize = k;
        while m < j
            invariant
                s == cs@,
                k <= m <= j <= n,
                n == s.len(),
                r@ == s.subrange(k as int, m as int),
            decreases j - m,
        {
            r.push(cs[m]);
            m = m + 1;
            assert(r@ =~= s.subrange(k as int, m as int));
        }
    }
    assert(r@ =~= trim(s));
    r
}

/// `pre` is a prefix of `cs`.
pub fn has_prefix(cs: &Vec<char>, pre: &Vec<char>) -> (r: bool)
    ensures
        r == pre@.is_prefix_of(cs@),
{
    if pre.len() > cs.len() {
        return false;
    }
    let mut i: usize = 0;
    while i < pre.len()
        invariant
            pre@.len() <= cs@.len(),
            i <= pre@.len(),
            forall|m: int| 0 <= m < i ==> pre@[m] == cs@[m],
        decreases pre.len() - i,
    {
        if pre[i] != cs[i] {
            return false;
        }
        i = i + 1;
    }
    assert(cs@.subrange(0, pre@.len() as int) =~= pre@);
    true
}

/// `a` and `b` hold the same characters.
pub fn chars_eq(a: &Vec<char>, b: &Vec<char>) -> (r: bool)
    ensures
        r == (a@ == b@),
{
    if a.len() != b.len() {
        return false;
    }
    let r = has_prefix(a, b);
    proof {
        if r {
            assert(a@ =~= b@);
        }
    }
    r
}

} // verus!
