//! Percent-encoding of paths and names, as RFC 2396 section 2 describes it.
use vstd::prelude::*;
use crate::text::{
    join_with, lemma_join_push, lemma_join_split_from, lemma_split_join, push_char, split_chars,
    split_from, split_on, string_of, views,
};

verus! {

/// `c` is one of the characters that percent-encoding leaves as they are.
pub open spec fn is_unreserved(c: char) -> bool {
    ('0' <= c && c <= '9') || ('A' <= c && c <= 'Z') || ('a' <= c && c <= 'z') || c == '-'
        || c == '.' || c == '_' || c == '~'
}

/// `c` is an upper-case hex digit.
pub open spec fn is_hex_upper(c: char) -> bool {
    ('0' <= c && c <= '9') || ('A' <= c && c <= 'F')
}

/// Every character of `s` is unreserved, a separator, or a `%` that two
/// upper-case hex digits follow.
pub open spec fn well_encoded(s: Seq<char>) -> bool {
    forall|i: int| 0 <= i < s.len() ==> is_unreserved(#[trigger] s[i]) || s[i] == '/' || (s[i] == '%'
        && i + 2 < s.len() && is_hex_upper(s[i + 1]) && is_hex_upper(s[i + 2]))
}

pub proof fn lemma_well_encoded_concat(a: Seq<char>, b: Seq<char>)
    requires
        well_encoded(a),
        well_encoded(b),
    ensures
        well_encoded(a + b),
{
    let c = a + b;
    assert forall|i: int| 0 <= i < c.len() implies is_unreserved(#[trigger] c[i]) || c[i] == '/' || (c[i]
        == '%' && i + 2 < c.len() && is_hex_upper(c[i + 1]) && is_hex_upper(c[i + 2])) by {
        if i < a.len() {
            assert(c[i] == a[i]);
            if a[i] == '%' && !is_unreserved(a[i]) {
                assert(c[i + 1] == a[i + 1] && c[i + 2] == a[i + 2]);
            }
        } else {
            assert(c[i] == b[i - a.len()]);
            if b[i - a.len()] == '%' {
                assert(c[i + 1] == b[i - a.len() + 1] && c[i + 2] == b[i - a.len() + 2]);
            }
        }
    }
}

/// The percent-encoded form of `s`.
pub uninterp spec fn url_encoded(s: Seq<char>) -> Seq<char>;

/// The text that the percent-encoded `s` stands for, where its bytes are UTF-8.
pub uninterp spec fn url_decoded(s: Seq<char>) -> Option<Seq<char>>;

/// Relies on urlencoding::encode: every byte of the UTF-8 form of `s` other
/// than an ASCII letter, digit or one of `-._~` becomes `%` and two hex
/// digits, so the result holds no other characters, leaves text made of those
/// characters as it is, and decodes back to `s`.
#[verifier::external_body]
pub(crate) fn percent_encode(s: &str) -> (r: String)
    ensures
        r@ == url_encoded(s@),
        forall|i: int| 0 <= i < r@.len() ==> is_unreserved(#[trigger] r@[i]) || r@[i] == '%',
        forall|i: int| 0 <= i < r@.len() && #[trigger] r@[i] == '%' ==> i + 2 < r@.len() && is_hex_upper(
            r@[i + 1],
        ) && is_hex_upper(r@[i + 2]),
        (forall|i: int| 0 <= i < s@.len() ==> is_unreserved(#[trigger] s@[i])) ==> r@ == s@,
        url_decoded(r@) == Some(s@),
{
    urlencoding::encode(s).into_owned()
}

/// Relies on urlencoding::decode: `%` and two hex digits become one byte,
/// and the bytes are read as UTF-8; it fails where they are not UTF-8. Text
/// without `%` is returned as it is.
#[verifier::external_body]
pub(crate) fn percent_decode(s: &str) -> (r: Option<String>)
    ensures
        r.is_some() == url_decoded(s@).is_some(),
        r matches Some(v) ==> v@ == url_decoded(s@).unwrap(),
        r matches Some(v) ==> ((forall|i: int| 0 <= i < s@.len() ==> #[trigger] s@[i] != '%') ==> v@ == s@),
        (forall|i: int| 0 <= i < s@.len() ==> #[trigger] s@[i] != '%') ==> r.is_some(),
{
    match urlencoding::decode(s) {
        Ok(v) => Some(v.into_owned()),
        Err(_) => None,
    }
}


/// A path percent-encoded one component at a time: the separators stay.
pub open spec fn encode_path(p: Seq<char>) -> Seq<char> {
    join_with(split_on(p, '/').map_values(|q: Seq<char>| url_encoded(q)), '/')
}

/// The path that the percent-encoded `p` stands for, decoded between the
/// separators, where every piece decodes.
pub open spec fn decode_path(p: Seq<char>) -> Option<Seq<char>> {
    let qs = split_on(p, '/');
    if forall|k: int| 0 <= k < qs.len() ==> (#[trigger] url_decoded(qs[k])) is Some {
        Some(join_with(qs.map_values(|q: Seq<char>| url_decoded(q).unwrap()), '/'))
    } else {
        None
    }
}

/// `p` percent-encoded between its separators. The result holds only
/// unreserved characters, separators and `%XX` escapes, so no line break; it
/// decodes back to `p`, and a path made of unreserved characters and
/// separators is kept as it is.
pub fn encode_path_str(p: &str) -> (r: String)
    ensures
        r@ == encode_path(p@),
        decode_path(r@) == Some(p@),
        well_encoded(r@),
        forall|i: int| 0 <= i < r@.len() ==> #[trigger] r@[i] != '\n' && r@[i] != '\r',
        (forall|i: int| 0 <= i < p@.len() ==> is_unreserved(#[trigger] p@[i]) || p@[i] == '/') ==> r@ == p@,
{
    let cs = crate::text::to_chars(p);
    let ps = split_chars(&cs, '/');
    let ghost pv = views(ps@);
    let ghost es = pv.map_values(|q: Seq<char>| url_encoded(q));
    proof {
        lemma_join_split_from(p@, 0, '/');
    }
    let mut r = String::new();
    let mut i: usize = 0;
    while i < ps.len()
        invariant
            pv == views(ps@),
            pv == split_on(p@, '/'),
            es == pv.map_values(|q: Seq<char>| url_encoded(q)),
            pv.len() >= 1,
            i <= ps@.len(),
            i == 0 ==> r@.len() == 0,
            i > 0 ==> r@ == join_with(es.subrange(0, i as int), '/'),
            forall|k: int| 0 <= k < i ==> url_decoded(#[trigger] es[k]) == Some(pv[k]),
            forall|k: int, m: int| 0 <= k < i && 0 <= m < es[k].len() ==> #[trigger] es[k][m] != '/'
                && es[k][m] != '\n' && es[k][m] != '\r',
            well_encoded(r@),
            (forall|m: int| 0 <= m < p@.len() ==> is_unreserved(#[trigger] p@[m]) || p@[m] == '/')
                ==> forall|k: int| 0 <= k < i ==> #[trigger] es[k] == pv[k],
        decreases ps.len() - i,
    {
        let piece = string_of(&ps[i], 0, ps[i].len());
        assert(ps@[i as int]@.subrange(0, ps@[i as int]@.len() as int) =~= pv[i as int]);
        let e = percent_encode(piece.as_str());
        assert(e@ == es[i as int]);
        assert forall|m: int| 0 <= m < e@.len() implies #[trigger] e@[m] != '/' && e@[m] != '\n' && e@[m] != '\r' by {
            assert(is_unreserved(e@[m]) || e@[m] == '%');
        }
        let ghost old_r = r@;
        if i > 0 {
            push_char(&mut r, '/');
        }
        r.append(e.as_str());
        proof {
            if i == 0 {
                assert(es.subrange(0, 1) =~= seq![es[0]]);
                assert(r@ =~= join_with(es.subrange(0, 1), '/'));
            } else {
                lemma_join_push(es.subrange(0, i as int), es[i as int], '/');
                assert(es.subrange(0, i as int).push(es[i as int]) =~= es.subrange(0, i + 1));
                assert(r@ =~= old_r + seq!['/'] + e@);
            }
            assert(well_encoded(e@));
            if i > 0 {
                assert(well_encoded(seq!['/']));
                lemma_well_encoded_concat(old_r, seq!['/']);
                lemma_well_encoded_concat(old_r + seq!['/'], e@);
            } else {
                assert(r@ =~= e@);
            }
            if forall|m: int| 0 <= m < p@.len() ==> is_unreserved(#[trigger] p@[m]) || p@[m] == '/' {
                lemma_piece_safe(p@, i as int);
                assert(e@ == pv[i as int]);
            }
        }
        i = i + 1;
    }
    assert(es.subrange(0, i as int) =~= es);
    proof {
        lemma_split_join(es, '/');
        let ds = es.map_values(|q: Seq<char>| url_decoded(q).unwrap());
        assert(ds =~= pv);
        assert(pv.subrange(0, pv.len() as int) =~= pv);
        assert(p@.subrange(0, p@.len() as int) =~= p@);
        assert forall|m: int| 0 <= m < r@.len() implies #[trigger] r@[m] != '\n' && r@[m] != '\r' by {
            assert(is_unreserved(r@[m]) || r@[m] == '/' || r@[m] == '%');
        }
        if forall|m: int| 0 <= m < p@.len() ==> is_unreserved(#[trigger] p@[m]) || p@[m] == '/' {
            assert(es =~= pv);
        }
    }
    r
}

/// A path made of unreserved characters and separators has pieces made of
/// unreserved characters.
proof fn lemma_piece_safe(p: Seq<char>, k: int)
    requires
        forall|m: int| 0 <= m < p.len() ==> is_unreserved(#[trigger] p[m]) || p[m] == '/',
        0 <= k < split_on(p, '/').len(),
    ensures
        forall|m: int| 0 <= m < split_on(p, '/')[k].len() ==> is_unreserved(#[trigger] split_on(p, '/')[k][m]),
{
    lemma_pieces_from(p, 0, k);
}

proof fn lemma_pieces_from(p: Seq<char>, i: int, k: int)
    requires
        forall|m: int| 0 <= m < p.len() ==> is_unreserved(#[trigger] p[m]) || p[m] == '/',
        0 <= i <= p.len(),
        0 <= k < split_from(p, i, '/').len(),
    ensures
        forall|m: int| 0 <= m < split_from(p, i, '/')[k].len() ==> is_unreserved(#[trigger] split_from(p, i, '/')[k][m]),
    decreases p.len() - i,
{
    crate::text::lemma_first_found(p, i, '/');
    let j = crate::text::find_from(p, i, '/');
    let q = split_from(p, i, '/');
    if j < p.len() {
        if k == 0 {
            assert(q[0] == p.subrange(i, j));
            assert forall|m: int| 0 <= m < q[0].len() implies is_unreserved(#[trigger] q[0][m]) by {
                assert(q[0][m] == p[i + m]);
            }
        } else {
            lemma_pieces_from(p, j + 1, k - 1);
            assert(q[k] == split_from(p, j + 1, '/')[k - 1]);
        }
    } else {
        assert(q[0] == p.subrange(i, p.len() as int));
        assert forall|m: int| 0 <= m < q[0].len() implies is_unreserved(#[trigger] q[0][m]) by {
            assert(q[0][m] == p[i + m]);
        }
    }
}

/// `p` decoded between its separators; none where a piece does not decode.
pub fn decode_path_str(p: &str) -> (r: Option<String>)
    ensures
        r is Some == decode_path(p@) is Some,
        r matches Some(v) ==> decode_path(p@) == Some(v@),
{
    let cs = crate::text::to_chars(p);
    let ps = split_chars(&cs, '/');
    let ghost pv = views(ps@);
    let mut ds: Vec<String> = Vec::new();
    let mut r = String::new();
    let mut i: usize = 0;
    proof {
        lemma_join_split_from(p@, 0, '/');
    }
    while i < ps.len()
        invariant
            pv == views(ps@),
            pv == split_on(p@, '/'),
            pv.len() >= 1,
            i <= ps@.len(),
            ds@.len() == i,
            forall|k: int| 0 <= k < i ==> url_decoded(pv[k]) == Some(#[trigger] ds@[k]@),
            i == 0 ==> r@.len() == 0,
            i > 0 ==> r@ == join_with(ds@.map_values(|d: String| d@), '/'),
        decreases ps.len() - i,
    {
        let piece = string_of(&ps[i], 0, ps[i].len());
        assert(ps@[i as int]@.subrange(0, ps@[i as int]@.len() as int) =~= pv[i as int]);
        let d = match percent_decode(piece.as_str()) {
            Some(d) => d,
            None => {
                proof {
                    assert(url_decoded(pv[i as int]) is None);
                    if forall|k: int| 0 <= k < pv.len() ==> (#[trigger] url_decoded(pv[k])) is Some {
                        assert(url_decoded(pv[i as int]) is Some);
                    }
                }
                return None;
            },
        };
        let ghost old_ds = ds@;
        let ghost old_r = r@;
        if i > 0 {
            push_char(&mut r, '/');
        }
        r.append(d.as_str());
        ds.push(d);
        proof {
            let dv = ds@.map_values(|x: String| x@);
            assert(dv =~= old_ds.map_values(|x: String| x@).push(d@));
            if i == 0 {
                assert(dv =~= seq![d@]);
                assert(r@ =~= join_with(dv, '/'));
            } else {
                lemma_join_push(old_ds.map_values(|x: String| x@), d@, '/');
                assert(r@ =~= old_r + seq!['/'] + d@);
            }
        }
        i = i + 1;
    }
    proof {
        let dv = ds@.map_values(|x: String| x@);
        assert forall|k: int| 0 <= k < pv.len() implies (#[trigger] url_decoded(pv[k])) is Some by {
            assert(url_decoded(pv[k]) == Some(ds@[k]@));
        }
        assert(dv =~= pv.map_values(|q: Seq<char>| url_decoded(q).unwrap()));
    }
    Some(r)
}

} // verus!
