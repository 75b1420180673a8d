//! `.trashinfo` records: where a trashed item came from, and when.
use vstd::prelude::*;
use crate::encoding::{
    decode_path, decode_path_str, encode_path, encode_path_str, is_unreserved, well_encoded,
};
use crate::text::{
    digit_char, find_from, has_prefix, lemma_find_from, push_char, split_chars, split_on,
    string_of, to_chars, trim, trim_chars, views, chars_eq, lemma_split_step,
    lemma_split_last, find_ws_from, trim_end_index, is_ws,
};

verus! {

/// A local date and time to the second, as a trash bin records deletions.
#[derive(Debug, Clone, Copy, PartialEq, Eq, Structural)]
pub struct DeletionDate {
    pub year: u16,
    pub month: u8,
    pub day: u8,
    pub hour: u8,
    pub minute: u8,
    pub second: u8,
}

/// Two decimal digits for `n`, below a hundred.
pub open spec fn two_digits(n: nat) -> Seq<char> {
    seq![digit_char(n / 10), digit_char(n % 10)]
}

/// Four decimal digits for `n`, below ten thousand.
pub open spec fn four_digits(n: nat) -> Seq<char> {
    two_digits(n / 100) + two_digits(n % 100)
}

/// `YYYY-MM-DDThh:mm:ss` for `d`.
pub open spec fn date_text(d: DeletionDate) -> Seq<char> {
    four_digits(d.year as nat) + seq!['-'] + two_digits(d.month as nat) + seq!['-']
        + two_digits(d.day as nat) + seq!['T'] + two_digits(d.hour as nat) + seq![':']
        + two_digits(d.minute as nat) + seq![':'] + two_digits(d.second as nat)
}

/// The value of the decimal digit `c`, where it is one.
pub open spec fn digit_value(c: char) -> Option<nat> {
    if '0' <= c && c <= '9' {
        Some((c as nat - 48) as nat)
    } else {
        None
    }
}

/// The value of the two digits at `s[i..i + 2]`.
pub open spec fn two_value(s: Seq<char>, i: int) -> Option<nat> {
    match (digit_value(s[i]), digit_value(s[i + 1])) {
        (Some(a), Some(b)) => Some(a * 10 + b),
        _ => None,
    }
}

/// The date that the text `s` of the form `YYYY-MM-DDThh:mm:ss` names,
/// where it is well formed and its fields are in range.
pub open spec fn parse_date(s: Seq<char>) -> Option<DeletionDate> {
    if s.len() != 19 || s[4] != '-' || s[7] != '-' || s[10] != 'T' || s[13] != ':' || s[16] != ':' {
        None
    } else {
        match (two_value(s, 0), two_value(s, 2), two_value(s, 5), two_value(s, 8), two_value(s, 11),
            two_value(s, 14), two_value(s, 17)) {
            (Some(y1), Some(y2), Some(mo), Some(d), Some(h), Some(mi), Some(se)) => {
                let dd = DeletionDate {
                    year: (y1 * 100 + y2) as u16,
                    month: mo as u8,
                    day: d as u8,
                    hour: h as u8,
                    minute: mi as u8,
                    second: se as u8,
                };
                if dd.wf() { Some(dd) } else { None }
            },
            _ => None,
        }
    }
}

/// `s` cut at its first `+`, `z` or `Z`: what follows a time is its offset.
pub open spec fn strip_offset(s: Seq<char>) -> Seq<char> {
    let a = s.subrange(0, find_from(s, 0, '+'));
    let b = a.subrange(0, find_from(a, 0, 'z'));
    b.subrange(0, find_from(b, 0, 'Z'))
}

/// `year` is a leap year of the Gregorian calendar.
pub open spec fn is_leap(year: nat) -> bool {
    year % 4 == 0 && (year % 100 != 0 || year % 400 == 0)
}

/// The number of days of `month` (1 to 12) in `year`.
pub open spec fn days_in_month(year: nat, month: nat) -> nat {
    if month == 2 {
        if is_leap(year) { 29 } else { 28 }
    } else if month == 4 || month == 6 || month == 9 || month == 11 {
        30
    } else {
        31
    }
}

fn month_days(year: u16, month: u8) -> (r: u8)
    ensures
        r as nat == days_in_month(year as nat, month as nat),
{
    if month == 2 {
        if year % 4 == 0 && (year % 100 != 0 || year % 400 == 0) { 29 } else { 28 }
    } else if month == 4 || month == 6 || month == 9 || month == 11 {
        30
    } else {
        31
    }
}

impl DeletionDate {
    /// A day of the Gregorian calendar and a time of day, with a year of four
    /// digits.
    pub open spec fn wf(&self) -> bool {
        self.year <= 9999 && 1 <= self.month <= 12 && 1 <= self.day <= days_in_month(
            self.year as nat,
            self.month as nat,
        ) && self.hour < 24 && self.minute < 60 && self.second < 60
    }

    /// The date as a trash bin writes it: `YYYY-MM-DDThh:mm:ss`, no offset.
    pub fn to_trashinfo_string(&self) -> (r: String)
        requires
            self.wf(),
        ensures
            r@ == date_text(*self),
    {
        let mut r = String::new();
        push_two(&mut r, (self.year / 100) as u8);
        push_two(&mut r, (self.year % 100) as u8);
        push_char(&mut r, '-');
        push_two(&mut r, self.month);
        push_char(&mut r, '-');
        push_two(&mut r, self.day);
        push_char(&mut r, 'T');
        push_two(&mut r, self.hour);
        push_char(&mut r, ':');
        push_two(&mut r, self.minute);
        push_char(&mut r, ':');
        push_two(&mut r, self.second);
        assert(r@ =~= date_text(*self));
        r
    }

    /// The date in `s`, of the form `YYYY-MM-DDThh:mm:ss` once cut at an
    /// offset (`+`, `z` or `Z`).
    pub fn parse(s: &str) -> (r: Option<DeletionDate>)
        ensures
            r == parse_date(strip_offset(s@)),
    {
        let cs = to_chars(s);
        let a = cut_at(&cs, '+');
        let b = cut_at(&a, 'z');
        let c = cut_at(&b, 'Z');
        assert(c@ == strip_offset(s@));
        if c.len() != 19 || c[4] != '-' || c[7] != '-' || c[10] != 'T' || c[13] != ':' || c[16] != ':' {
            return None;
        }
        let y1 = match read_two(&c, 0) { Some(v) => v, None => { return None; } };
        let y2 = match read_two(&c, 2) { Some(v) => v, None => { return None; } };
        let mo = match read_two(&c, 5) { Some(v) => v, None => { return None; } };
        let d = match read_two(&c, 8) { Some(v) => v, None => { return None; } };
        let h = match read_two(&c, 11) { Some(v) => v, None => { return None; } };
        let mi = match read_two(&c, 14) { Some(v) => v, None => { return None; } };
        let se = match read_two(&c, 17) { Some(v) => v, None => { return None; } };
        let dd = DeletionDate {
            year: (y1 as u16) * 100 + y2 as u16,
            month: mo,
            day: d,
            hour: h,
            minute: mi,
            second: se,
        };
        if dd.year <= 9999 && 1 <= dd.month && dd.month <= 12 && 1 <= dd.day
            && dd.day <= month_days(dd.year, dd.month) && dd.hour < 24 && dd.minute < 60 && dd.second < 60 {
            Some(dd)
        } else {
            None
        }
    }
}

fn push_two(s: &mut String, n: u8)
    requires
        n < 100,
    ensures
        final(s)@ == old(s)@ + two_digits(n as nat),
{
    push_char(s, digit_of(n / 10));
    push_char(s, digit_of(n % 10));
    assert(final(s)@ =~= old(s)@ + two_digits(n as nat));
}

fn digit_of(d: u8) -> (c: char)
    requires
        d < 10,
    ensures
        c == digit_char(d as nat),
{
    ((d + 48) as char)
}

fn read_two(c: &Vec<char>, i: usize) -> (r: Option<u8>)
    requires
        i + 2 <= c@.len(),
    ensures
        r matches Some(v) ==> two_value(c@, i as int) == Some(v as nat),
        r is None ==> two_value(c@, i as int) is None,
{
    let a = c[i];
    let n = c.len();
    assert(i + 1 < n);
    let j: usize = i + 1;
    let b = c[j];
    if '0' <= a && a <= '9' && '0' <= b && b <= '9' {
        let x = ((a as u32) - 48) as u8;
        let y = ((b as u32) - 48) as u8;
        Some(x * 10 + y)
    } else {
        None
    }
}

/// `cs` cut at its first `c`.
fn cut_at(cs: &Vec<char>, c: char) -> (r: Vec<char>)
    ensures
        r@ == cs@.subrange(0, find_from(cs@, 0, c)),
{
    let mut r: Vec<char> = Vec::new();
    let mut i: usize = 0;
    while i < cs.len() && cs[i] != c
        invariant
            i <= cs@.len(),
            r@ == cs@.subrange(0, i as int),
            forall|m: int| 0 <= m < i ==> #[trigger] cs@[m] != c,
        decreases cs.len() - i,
    {
        r.push(cs[i]);
        i = i + 1;
        assert(r@ =~= cs@.subrange(0, i as int));
    }
    proof {
        lemma_find_from(cs@, 0, i as int, c);
    }
    r
}


/// `[Trash Info]`.
pub open spec fn info_header() -> Seq<char> {
    seq!['[', 'T', 'r', 'a', 's', 'h', ' ', 'I', 'n', 'f', 'o', ']']
}

/// `Path=`.
pub open spec fn path_key() -> Seq<char> {
    seq!['P', 'a', 't', 'h', '=']
}

/// `DeletionDate=`.
pub open spec fn date_key() -> Seq<char> {
    seq!['D', 'e', 'l', 'e', 't', 'i', 'o', 'n', 'D', 'a', 't', 'e', '=']
}

/// The text of a `.trashinfo` file with the encoded path `op` and the date `dd`.
pub open spec fn info_text(op: Seq<char>, dd: Seq<char>) -> Seq<char> {
    info_header() + seq!['\n'] + path_key() + op + seq!['\n'] + date_key() + dd + seq!['\n']
}

/// The encoded path and the date that the text `content` of a `.trashinfo`
/// file holds: its first three `\n`-separated lines must be the header (white
/// space around it aside), `Path=...` and `DeletionDate=...`.
pub open spec fn parse_info(content: Seq<char>) -> Option<(Seq<char>, Seq<char>)> {
    let p = split_on(content, '\n');
    if p.len() >= 3 && trim(p[0]) == info_header() && path_key().is_prefix_of(p[1])
        && date_key().is_prefix_of(p[2]) {
        Some((p[1].subrange(5, p[1].len() as int), p[2].subrange(13, p[2].len() as int)))
    } else {
        None
    }
}

/// Why the text of a `.trashinfo` file was refused.
#[derive(Debug, Clone, Copy, PartialEq, Eq, Structural)]
pub enum TrashInfoError {
    /// The header, `Path=` or `DeletionDate=` line is not where it belongs.
    InvalidFormat,
}

/// A `.trashinfo` record and the file it is kept in.
#[derive(Debug)]
pub struct TrashInfo {
    /// The original path, percent-encoded.
    pub original_path: String,
    /// The deletion date as written, `YYYY-MM-DDThh:mm:ss`.
    pub deletion_date: String,
    /// Where the record is kept.
    pub path: String,
}

impl Clone for TrashInfo {
    fn clone(&self) -> (r: Self)
        ensures
            r == *self,
    {
        TrashInfo {
            original_path: self.original_path.clone(),
            deletion_date: self.deletion_date.clone(),
            path: self.path.clone(),
        }
    }
}

impl PartialEq for TrashInfo {
    fn eq(&self, o: &TrashInfo) -> (r: bool)
        ensures
            r == (self.original_path@ == o.original_path@ && self.deletion_date@ == o.deletion_date@
                && self.path@ == o.path@),
    {
        self.original_path == o.original_path && self.deletion_date == o.deletion_date
            && self.path == o.path
    }
}

impl vstd::std_specs::cmp::PartialEqSpecImpl for TrashInfo {
    open spec fn obeys_eq_spec() -> bool {
        true
    }

    open spec fn eq_spec(&self, o: &TrashInfo) -> bool {
        self.original_path@ == o.original_path@ && self.deletion_date@ == o.deletion_date@
            && self.path@ == o.path@
    }
}

impl TrashInfo {
    /// The record, kept at `trashinfo`, of an item from `original_path`
    /// deleted at `deletion_date`: the path is percent-encoded between its separators, the date
    /// written without offset.
    pub fn new(trashinfo: String, original_path: &str, deletion_date: &DeletionDate) -> (r: TrashInfo)
        requires
            deletion_date.wf(),
        ensures
            r.original_path@ == encode_path(original_path@),
            decode_path(r.original_path@) == Some(original_path@),
            well_encoded(r.original_path@),
            (forall|i: int| 0 <= i < original_path@.len() ==> is_unreserved(#[trigger] original_path@[i])
                || original_path@[i] == '/') ==> r.original_path@ == original_path@,
            forall|i: int| 0 <= i < r.original_path@.len()
                ==> #[trigger] r.original_path@[i] != '\n' && r.original_path@[i] != '\r',
            r.deletion_date@ == date_text(*deletion_date),
            r.path == trashinfo,
    {
        let e = encode_path_str(original_path);
        TrashInfo {
            original_path: e,
            deletion_date: deletion_date.to_trashinfo_string(),
            path: trashinfo,
        }
    }

    /// The record in the text `content` of the `.trashinfo` file at `path`.
    pub fn from(path: String, content: &str) -> (r: Result<TrashInfo, TrashInfoError>)
        ensures
            match parse_info(content@) {
                Some((op, dd)) => r matches Ok(t) && t.original_path@ == op && t.deletion_date@ == dd
                    && t.path == path,
                None => r == Err::<TrashInfo, TrashInfoError>(TrashInfoError::InvalidFormat),
            },
    {
        let header = to_chars("[Trash Info]");
        let pk = to_chars("Path=");
        let dk = to_chars("DeletionDate=");
        proof {
            reveal_strlit("[Trash Info]");
            reveal_strlit("Path=");
            reveal_strlit("DeletionDate=");
            assert(header@ =~= info_header());
            assert(pk@ =~= path_key());
            assert(dk@ =~= date_key());
        }
        let cs = to_chars(content);
        let p = split_chars(&cs, '\n');
        let ghost pv = views(p@);
        if p.len() < 3 {
            return Err(TrashInfoError::InvalidFormat);
        }
        assert(pv[0] == p@[0]@ && pv[1] == p@[1]@ && pv[2] == p@[2]@);
        let first = trim_chars(&p[0]);
        if !chars_eq(&first, &header) || !has_prefix(&p[1], &pk) || !has_prefix(&p[2], &dk) {
            return Err(TrashInfoError::InvalidFormat);
        }
        let op = string_of(&p[1], 5, p[1].len());
        let dd = string_of(&p[2], 13, p[2].len());
        Ok(TrashInfo { original_path: op, deletion_date: dd, path })
    }

    /// The text of this record's file.
    pub fn file_content(&self) -> (r: String)
        ensures
            r@ == info_text(self.original_path@, self.deletion_date@),
    {
        let mut r = String::new();
        r.append("[Trash Info]\nPath=");
        r.append(self.original_path.as_str());
        r.append("\nDeletionDate=");
        r.append(self.deletion_date.as_str());
        push_char(&mut r, '\n');
        proof {
            reveal_strlit("[Trash Info]\nPath=");
            reveal_strlit("\nDeletionDate=");
        }
        assert(r@ =~= info_text(self.original_path@, self.deletion_date@));
        r
    }

    /// The original path, decoded; none where its bytes are not UTF-8.
    pub fn get_original_path(&self) -> (r: Option<String>)
        ensures
            r is Some == decode_path(self.original_path@) is Some,
            r matches Some(v) ==> v@ == decode_path(self.original_path@).unwrap(),
    {
        decode_path_str(self.original_path.as_str())
    }

    /// The deletion date, where it is of the form `YYYY-MM-DDThh:mm:ss`
    /// once an offset that an earlier writer left is cut off. The caller
    /// takes it as local time.
    pub fn get_deletion_date(&self) -> (r: Option<DeletionDate>)
        ensures
            r == parse_date(strip_offset(self.deletion_date@)),
    {
        DeletionDate::parse(self.deletion_date.as_str())
    }
}


/// `s` holds no line break.
pub open spec fn single_line(s: Seq<char>) -> bool {
    forall|i: int| 0 <= i < s.len() ==> #[trigger] s[i] != '\n'
}

/// A record written to a `.trashinfo` file reads back as the same encoded
/// path and date, where neither holds a line break (an encoded path never
/// does, nor a date as written).
pub proof fn lemma_trashinfo_round_trip(op: Seq<char>, dd: Seq<char>)
    requires
        single_line(op),
        single_line(dd),
    ensures
        parse_info(info_text(op, dd)) == Some((op, dd)),
{
    let h = info_header();
    let pk = path_key();
    let dk = date_key();
    let s = info_text(op, dd);
    let a = 12int;
    let b = a + 1 + 5 + op.len();
    let c = b + 1 + 13 + dd.len();
    assert(s.len() == c + 1);
    assert(s.subrange(0, a) =~= h);
    assert(s.subrange(a + 1, b) =~= pk + op);
    assert(s.subrange(b + 1, c) =~= dk + dd);
    assert forall|m: int| 0 <= m < a implies #[trigger] s[m] != '\n' by {
        assert(s[m] == h[m]);
    }
    assert forall|m: int| a + 1 <= m < b implies #[trigger] s[m] != '\n' by {
        if m < a + 6 {
            assert(s[m] == pk[m - a - 1]);
        } else {
            assert(s[m] == op[m - a - 6]);
        }
    }
    assert forall|m: int| b + 1 <= m < c implies #[trigger] s[m] != '\n' by {
        if m < b + 14 {
            assert(s[m] == dk[m - b - 1]);
        } else {
            assert(s[m] == dd[m - b - 14]);
        }
    }
    assert(s[a] == '\n' && s[b] == '\n' && s[c] == '\n');
    lemma_split_step(s, 0, a, '\n');
    lemma_split_step(s, a + 1, b, '\n');
    lemma_split_step(s, b + 1, c, '\n');
    lemma_split_last(s, c + 1, '\n');
    let p = split_on(s, '\n');
    assert(p[0] == h);
    assert(p[1] == pk + op);
    assert(p[2] == dk + dd);
    assert(find_ws_from(h, 0, false) == 0);
    assert(!is_ws(h[11]));
    assert(trim_end_index(h, 12) == 12);
    assert(trim(h) =~= h);
    assert(pk.is_prefix_of(pk + op)) by {
        assert((pk + op).subrange(0, 5) =~= pk);
    }
    assert(dk.is_prefix_of(dk + dd)) by {
        assert((dk + dd).subrange(0, 13) =~= dk);
    }
    assert((pk + op).subrange(5, (pk + op).len() as int) =~= op);
    assert((dk + dd).subrange(13, (dk + dd).len() as int) =~= dd);
}

proof fn lemma_two_digits(s: Seq<char>, i: int, n: nat)
    requires
        n < 100,
        0 <= i && i + 2 <= s.len(),
        s[i] == digit_char(n / 10),
        s[i + 1] == digit_char(n % 10),
    ensures
        two_value(s, i) == Some(n),
        '0' <= s[i] <= '9',
        '0' <= s[i + 1] <= '9',
{
    assert(digit_value(s[i]) == Some(n / 10));
    assert(digit_value(s[i + 1]) == Some(n % 10));
}

/// A date written as a trash bin writes it reads back as the same date.
pub proof fn lemma_date_round_trip(d: DeletionDate)
    requires
        d.wf(),
    ensures
        parse_date(strip_offset(date_text(d))) == Some(d),
{
    let s = date_text(d);
    let y = d.year as nat;
    assert(s.len() == 19);
    assert(s[0] == digit_char((y / 100) / 10) && s[1] == digit_char((y / 100) % 10));
    assert(s[2] == digit_char((y % 100) / 10) && s[3] == digit_char((y % 100) % 10));
    assert(s[4] == '-' && s[7] == '-' && s[10] == 'T' && s[13] == ':' && s[16] == ':');
    assert(s[5] == digit_char(d.month as nat / 10) && s[6] == digit_char(d.month as nat % 10));
    assert(s[8] == digit_char(d.day as nat / 10) && s[9] == digit_char(d.day as nat % 10));
    assert(s[11] == digit_char(d.hour as nat / 10) && s[12] == digit_char(d.hour as nat % 10));
    assert(s[14] == digit_char(d.minute as nat / 10) && s[15] == digit_char(d.minute as nat % 10));
    assert(s[17] == digit_char(d.second as nat / 10) && s[18] == digit_char(d.second as nat % 10));
    lemma_two_digits(s, 0, y / 100);
    lemma_two_digits(s, 2, y % 100);
    lemma_two_digits(s, 5, d.month as nat);
    lemma_two_digits(s, 8, d.day as nat);
    lemma_two_digits(s, 11, d.hour as nat);
    lemma_two_digits(s, 14, d.minute as nat);
    lemma_two_digits(s, 17, d.second as nat);
    assert forall|i: int| 0 <= i < 19 implies #[trigger] s[i] != '+' && s[i] != 'z' && s[i] != 'Z' by {
        if i == 0 || i == 1 || i == 2 || i == 3 || i == 5 || i == 6 || i == 8 || i == 9 || i == 11
            || i == 12 || i == 14 || i == 15 || i == 17 || i == 18 {
            assert('0' <= s[i] <= '9');
        }
    }
    lemma_find_from(s, 0, 19, '+');
    assert(s.subrange(0, 19) =~= s);
    lemma_find_from(s, 0, 19, 'z');
    lemma_find_from(s, 0, 19, 'Z');
    assert(strip_offset(s) == s);
    assert((y / 100) * 100 + y % 100 == y);
}

} // verus!
