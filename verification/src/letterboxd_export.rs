//! Reading a Letterboxd data export: `diary.csv`, `watched.csv`,
//! `ratings.csv`, `watchlist.csv` and `reviews.csv`, from a ZIP archive or
//! from the files' contents.
//!
//! Every file is read with a flexible CSV reader: columns are found by header
//! name, missing optional columns read as empty, and malformed rows are
//! skipped rather than failing the whole file.
use vstd::prelude::*;
use crate::text::{all_digits, ascii_lower, chars_of, is_digit, is_whitespace, owned, parse_u32, parsed_u32, whitespace};

verus! {

// ---------------------------------------------------------------------------
// Entries
// ---------------------------------------------------------------------------

/// A rating is kept as the text of the export's `Rating` column (half stars,
/// such as `4.5`); it is a valid decimal number.
#[derive(Debug)]
pub struct DiaryEntry {
    pub logged_date: String,
    pub name: String,
    pub year: u32,
    pub letterboxd_uri: String,
    pub slug: String,
    pub rating: Option<String>,
    pub rewatch: bool,
    pub tags: Vec<String>,
    pub watched_date: String,
}

#[derive(Debug)]
pub struct WatchedEntry {
    pub logged_date: String,
    pub name: String,
    pub year: u32,
    pub letterboxd_uri: String,
    pub slug: String,
}

#[derive(Debug)]
pub struct RatingEntry {
    pub logged_date: String,
    pub name: String,
    pub year: u32,
    pub letterboxd_uri: String,
    pub slug: String,
    pub rating: String,
}

#[derive(Debug)]
pub struct WatchlistEntry {
    pub logged_date: String,
    pub name: String,
    pub year: u32,
    pub letterboxd_uri: String,
    pub slug: String,
}

#[derive(Debug)]
pub struct ReviewEntry {
    pub logged_date: String,
    pub name: String,
    pub year: u32,
    pub letterboxd_uri: String,
    pub slug: String,
    pub rating: Option<String>,
    pub rewatch: bool,
    pub tags: Vec<String>,
    pub watched_date: String,
    pub review: String,
}

#[derive(Debug)]
pub struct LetterboxdExport {
    pub diary: Vec<DiaryEntry>,
    pub watched: Vec<WatchedEntry>,
    pub ratings: Vec<RatingEntry>,
    pub watchlist: Vec<WatchlistEntry>,
    pub reviews: Vec<ReviewEntry>,
}

/// The fields every row shares, as text.
pub struct RowView {
    pub logged_date: Seq<char>,
    pub name: Seq<char>,
    pub year: u32,
    pub letterboxd_uri: Seq<char>,
    pub slug: Seq<char>,
    pub rating: Option<Seq<char>>,
    pub rewatch: bool,
    pub tags: Seq<Seq<char>>,
    pub watched_date: Seq<char>,
    pub review: Seq<char>,
}

pub open spec fn opt_view(o: Option<String>) -> Option<Seq<char>> {
    match o {
        Some(s) => Some(s@),
        None => None,
    }
}

pub open spec fn strings_view(v: Seq<String>) -> Seq<Seq<char>> {
    v.map_values(|s: String| s@)
}

pub open spec fn diary_view(e: DiaryEntry) -> RowView {
    RowView {
        logged_date: e.logged_date@,
        name: e.name@,
        year: e.year,
        letterboxd_uri: e.letterboxd_uri@,
        slug: e.slug@,
        rating: opt_view(e.rating),
        rewatch: e.rewatch,
        tags: strings_view(e.tags@),
        watched_date: e.watched_date@,
        review: Seq::empty(),
    }
}

pub open spec fn watched_view(e: WatchedEntry) -> RowView {
    RowView {
        logged_date: e.logged_date@,
        name: e.name@,
        year: e.year,
        letterboxd_uri: e.letterboxd_uri@,
        slug: e.slug@,
        rating: None,
        rewatch: false,
        tags: Seq::empty(),
        watched_date: Seq::empty(),
        review: Seq::empty(),
    }
}

pub open spec fn rating_view(e: RatingEntry) -> RowView {
    RowView {
        logged_date: e.logged_date@,
        name: e.name@,
        year: e.year,
        letterboxd_uri: e.letterboxd_uri@,
        slug: e.slug@,
        rating: Some(e.rating@),
        rewatch: false,
        tags: Seq::empty(),
        watched_date: Seq::empty(),
        review: Seq::empty(),
    }
}

pub open spec fn watchlist_view(e: WatchlistEntry) -> RowView {
    RowView {
        logged_date: e.logged_date@,
        name: e.name@,
        year: e.year,
        letterboxd_uri: e.letterboxd_uri@,
        slug: e.slug@,
        rating: None,
        rewatch: false,
        tags: Seq::empty(),
        watched_date: Seq::empty(),
        review: Seq::empty(),
    }
}

pub open spec fn review_view(e: ReviewEntry) -> RowView {
    RowView {
        logged_date: e.logged_date@,
        name: e.name@,
        year: e.year,
        letterboxd_uri: e.letterboxd_uri@,
        slug: e.slug@,
        rating: opt_view(e.rating),
        rewatch: e.rewatch,
        tags: strings_view(e.tags@),
        watched_date: e.watched_date@,
        review: e.review@,
    }
}

// ---------------------------------------------------------------------------
// The CSV reader
// ---------------------------------------------------------------------------

/// The header record that csv's flexible reader yields for `content`, or
/// `None` when the header cannot be read.
pub uninterp spec fn csv_header_of(content: Seq<char>) -> Option<Seq<Seq<char>>>;

/// The data records (after the header) that csv's flexible reader yields for
/// `content`, in order: the fields of each record, or `None` for a record
/// the reader rejects.
pub uninterp spec fn csv_records_of(content: Seq<char>) -> Seq<Option<Seq<Seq<char>>>>;

/// `csv::Reader::headers`, with a flexible reader over `content`.
#[verifier::external_body]
pub(crate) fn csv_header(content: &str) -> (res: Option<Vec<String>>)
    ensures
        match res {
            Some(h) => csv_header_of(content@) == Some(strings_view(h@)),
            None => csv_header_of(content@) is None,
        },
{
    let mut rdr = csv::ReaderBuilder::new().flexible(true).from_reader(content.as_bytes());
    rdr.headers().ok().map(|h| h.iter().map(|f| f.to_string()).collect())
}

/// `csv::Reader::records`, with a flexible reader over `content`.
#[verifier::external_body]
pub(crate) fn csv_records(content: &str) -> (res: Vec<Option<Vec<String>>>)
    ensures
        res@.map_values(
            |r: Option<Vec<String>>|
                match r {
                    Some(f) => Some(strings_view(f@)),
                    None => None,
                },
        ) == csv_records_of(content@),
{
    let mut rdr = csv::ReaderBuilder::new().flexible(true).from_reader(content.as_bytes());
    rdr.records().map(|r| r.ok().map(|rec| rec.iter().map(|f| f.to_string()).collect())).collect()
}

// ---------------------------------------------------------------------------
// Fields
// ---------------------------------------------------------------------------

/// The index of the first header equal to `name`.
pub open spec fn column(header: Seq<Seq<char>>, name: Seq<char>) -> Option<int>
    decreases header.len(),
{
    if header.len() == 0 {
        None
    } else {
        match column(header.drop_last(), name) {
            Some(i) => Some(i),
            None => if header.last() == name {
                Some(header.len() - 1)
            } else {
                None
            },
        }
    }
}

/// The field at `idx`, or empty when the column or the field is missing.
pub open spec fn field(record: Seq<Seq<char>>, idx: Option<int>) -> Seq<char> {
    match idx {
        Some(i) => if 0 <= i < record.len() {
            record[i]
        } else {
            Seq::empty()
        },
        None => Seq::empty(),
    }
}

/// The field of the column named `name`.
pub open spec fn named(header: Seq<Seq<char>>, record: Seq<Seq<char>>, name: Seq<char>) -> Seq<
    char,
> {
    field(record, column(header, name))
}

fn col_idx(headers: &Vec<String>, name: &str) -> (res: Option<usize>)
    ensures
        match (res, column(strings_view(headers@), name@)) {
            (Some(i), Some(j)) => i == j,
            (None, None) => true,
            _ => false,
        },
{
    let ghost h = strings_view(headers@);
    let wanted = owned(name);
    let mut i: usize = 0;
    while i < headers.len()
        invariant
            i <= headers.len(),
            wanted@ == name@,
            h == strings_view(headers@),
            column(h.take(i as int), name@) is None,
        decreases headers.len() - i,
    {
        proof {
            assert(h.take(i + 1).drop_last() =~= h.take(i as int));
        }
        if headers[i] == wanted {
            proof {
                lemma_column_prefix(h, name@, i as int);
            }
            return Some(i);
        }
        i = i + 1;
    }
    proof {
        assert(h.take(h.len() as int) =~= h);
    }
    None
}

proof fn lemma_column_prefix(h: Seq<Seq<char>>, name: Seq<char>, i: int)
    requires
        0 <= i < h.len(),
        column(h.take(i), name) is None,
        h[i] == name,
    ensures
        column(h, name) == Some(i),
    decreases h.len(),
{
    if i == h.len() - 1 {
        assert(h.drop_last() =~= h.take(i));
    } else {
        assert(h.drop_last().take(i) =~= h.take(i));
        lemma_column_prefix(h.drop_last(), name, i);
    }
}

fn get_field(record: &Vec<String>, idx: Option<usize>) -> (res: String)
    ensures
        res@ == field(strings_view(record@), match idx {
            Some(i) => Some(i as int),
            None => None,
        }),
{
    match idx {
        Some(i) => if i < record.len() {
            record[i].clone()
        } else {
            String::new()
        },
        None => String::new(),
    }
}

// ---------------------------------------------------------------------------
// Slugs, tags, flags, ratings
// ---------------------------------------------------------------------------

/// `s` up to (not including) the first `c`, or all of `s`.
pub open spec fn before_first(s: Seq<char>, c: char) -> Seq<char>
    decreases s.len(),
{
    if s.len() == 0 {
        s
    } else if s[0] == c {
        Seq::empty()
    } else {
        seq![s[0]] + before_first(s.drop_first(), c)
    }
}

/// `s` without its trailing run of `c`.
pub open spec fn trim_trailing(s: Seq<char>, c: char) -> Seq<char>
    decreases s.len(),
{
    if s.len() > 0 && s.last() == c {
        trim_trailing(s.drop_last(), c)
    } else {
        s
    }
}

/// `s` after its last `c`, or all of `s`.
pub open spec fn after_last(s: Seq<char>, c: char) -> Seq<char>
    decreases s.len(),
{
    if s.len() == 0 {
        s
    } else if s.last() == c {
        Seq::empty()
    } else {
        after_last(s.drop_last(), c).push(s.last())
    }
}

/// The film slug of a Letterboxd URI: the last path segment, once the query
/// string, the fragment and trailing slashes are gone.
pub open spec fn slug_of(uri: Seq<char>) -> Seq<char> {
    after_last(trim_trailing(before_first(before_first(uri, '?'), '#'), '/'), '/')
}

fn before_first_chars(s: &Vec<char>, c: char) -> (res: Vec<char>)
    ensures
        res@ == before_first(s@, c),
{
    let mut out: Vec<char> = Vec::new();
    let mut i: usize = 0;
    proof {
        assert(s@.skip(0) =~= s@);
        assert(s@.take(0) + before_first(s@, c) =~= before_first(s@, c));
    }
    while i < s.len()
        invariant
            i <= s.len(),
            forall|j: int| 0 <= j < i ==> s@[j] != c,
            out@ == s@.take(i as int),
            before_first(s@, c) == s@.take(i as int) + before_first(s@.skip(i as int), c),
        decreases s.len() - i,
    {
        proof {
            assert(s@.skip(i as int)[0] == s@[i as int]);
            assert(s@.skip(i as int).drop_first() =~= s@.skip(i + 1));
        }
        if s[i] == c {
            proof {
                assert(before_first(s@.skip(i as int), c) == Seq::<char>::empty());
                assert(s@.take(i as int) + Seq::<char>::empty() =~= s@.take(i as int));
            }
            return out;
        }
        out.push(s[i]);
        proof {
            assert(s@.take(i + 1) =~= s@.take(i as int).push(s@[i as int]));
            assert(s@.take(i as int) + (seq![s@[i as int]] + before_first(s@.skip(i + 1), c))
                =~= s@.take(i + 1) + before_first(s@.skip(i + 1), c));
        }
        i = i + 1;
    }
    proof {
        assert(s@.take(i as int) =~= s@);
        assert(s@.skip(i as int) =~= Seq::<char>::empty());
        assert(s@.take(i as int) + Seq::<char>::empty() =~= s@);
    }
    out
}


fn trim_trailing_chars(s: &Vec<char>, c: char) -> (res: Vec<char>)
    ensures
        res@ == trim_trailing(s@, c),
{
    let mut n = s.len();
    proof {
        assert(s@.take(n as int) =~= s@);
    }
    while n > 0 && s[n - 1] == c
        invariant
            n <= s.len(),
            trim_trailing(s@, c) == trim_trailing(s@.take(n as int), c),
        decreases n,
    {
        proof {
            assert(s@.take(n as int).drop_last() =~= s@.take(n - 1));
        }
        n = n - 1;
    }
    let mut out: Vec<char> = Vec::new();
    let mut i: usize = 0;
    while i < n
        invariant
            i <= n <= s.len(),
            out@ == s@.take(i as int),
        decreases n - i,
    {
        out.push(s[i]);
        proof {
            assert(s@.take(i + 1) =~= s@.take(i as int).push(s@[i as int]));
        }
        i = i + 1;
    }
    proof {
        assert(s@.take(n as int).len() == 0 || s@.take(n as int).last() != c);
    }
    out
}

fn after_last_chars(s: &Vec<char>, c: char) -> (res: Vec<char>)
    ensures
        res@ == after_last(s@, c),
{
    let mut start = s.len();
    proof {
        assert(s@.take(start as int) =~= s@);
        assert(after_last(s@, c) + s@.skip(start as int) =~= after_last(s@, c));
    }
    while start > 0 && s[start - 1] != c
        invariant
            start <= s.len(),
            after_last(s@, c) == after_last(s@.take(start as int), c) + s@.skip(start as int),
        decreases start,
    {
        proof {
            let t = s@.take(start as int);
            assert(t.drop_last() =~= s@.take(start - 1));
            assert(s@.skip(start - 1) =~= seq![t.last()] + s@.skip(start as int));
            assert(after_last(t, c) =~= after_last(t.drop_last(), c).push(t.last()));
            assert(after_last(s@.take(start - 1), c).push(t.last()) + s@.skip(start as int)
                =~= after_last(s@.take(start - 1), c) + s@.skip(start - 1));
        }
        start = start - 1;
    }
    let mut out: Vec<char> = Vec::new();
    let mut i: usize = start;
    while i < s.len()
        invariant
            start <= i <= s.len(),
            out@ == s@.subrange(start as int, i as int),
        decreases s.len() - i,
    {
        out.push(s[i]);
        proof {
            assert(s@.subrange(start as int, i + 1) =~= s@.subrange(start as int, i as int).push(
                s@[i as int],
            ));
        }
        i = i + 1;
    }
    proof {
        assert(after_last(s@.take(start as int), c) =~= Seq::<char>::empty());
        assert(out@ =~= Seq::<char>::empty() + s@.skip(start as int));
    }
    out
}


/// The film slug of a Letterboxd URI (the last path segment, ignoring any
/// query string, fragment and trailing slash).
pub fn slug_from_uri(uri: &str) -> (res: String)
    ensures
        res@ == slug_of(uri@),
{
    let cs = chars_of(uri);
    let a = before_first_chars(&cs, '?');
    let b = before_first_chars(&a, '#');
    let t = trim_trailing_chars(&b, '/');
    let d = after_last_chars(&t, '/');
    crate::text::string_of(&d)
}

/// `s` without leading whitespace.
pub open spec fn trim_start(s: Seq<char>) -> Seq<char>
    decreases s.len(),
{
    if s.len() > 0 && whitespace(s[0]) {
        trim_start(s.drop_first())
    } else {
        s
    }
}

/// `s` without trailing whitespace.
pub open spec fn trim_end(s: Seq<char>) -> Seq<char>
    decreases s.len(),
{
    if s.len() > 0 && whitespace(s.last()) {
        trim_end(s.drop_last())
    } else {
        s
    }
}

/// `s` without leading or trailing whitespace.
pub open spec fn trim(s: Seq<char>) -> Seq<char> {
    trim_end(trim_start(s))
}

/// The pieces of `s` between commas (one more piece than there are commas).
pub open spec fn comma_pieces(s: Seq<char>) -> Seq<Seq<char>>
    decreases s.len(),
{
    if s.len() == 0 {
        seq![Seq::empty()]
    } else {
        let init = comma_pieces(s.drop_last());
        if s.last() == ',' {
            init.push(Seq::empty())
        } else {
            init.update(init.len() - 1, init.last().push(s.last()))
        }
    }
}

/// The trimmed, non-empty pieces of a list, in order.
pub open spec fn kept_tags(pieces: Seq<Seq<char>>) -> Seq<Seq<char>>
    decreases pieces.len(),
{
    if pieces.len() == 0 {
        Seq::empty()
    } else {
        let rest = kept_tags(pieces.drop_last());
        let t = trim(pieces.last());
        if t.len() > 0 {
            rest.push(t)
        } else {
            rest
        }
    }
}

/// The tags of a `Tags` field: comma-separated, each trimmed, empty ones dropped.
pub open spec fn tags_of(s: Seq<char>) -> Seq<Seq<char>> {
    if s.len() == 0 {
        Seq::empty()
    } else {
        kept_tags(comma_pieces(s))
    }
}

proof fn lemma_comma_pieces_nonempty(s: Seq<char>)
    ensures
        comma_pieces(s).len() > 0,
    decreases s.len(),
{
    if s.len() > 0 {
        lemma_comma_pieces_nonempty(s.drop_last());
    }
}

fn trim_chars(s: &Vec<char>) -> (res: Vec<char>)
    ensures
        res@ == trim(s@),
{
    let mut a: usize = 0;
    proof {
        assert(s@.skip(0) =~= s@);
    }
    while a < s.len() && is_whitespace(s[a])
        invariant
            a <= s.len(),
            trim_start(s@) == trim_start(s@.skip(a as int)),
        decreases s.len() - a,
    {
        proof {
            assert(s@.skip(a as int).drop_first() =~= s@.skip(a + 1));
            assert(s@.skip(a as int)[0] == s@[a as int]);
        }
        a = a + 1;
    }
    proof {
        if a < s.len() {
            assert(s@.skip(a as int)[0] == s@[a as int]);
        }
        assert(trim_start(s@) == s@.skip(a as int));
    }
    let mut b: usize = s.len();
    while b > a && is_whitespace(s[b - 1])
        invariant
            a <= b <= s.len(),
            trim_start(s@) == s@.skip(a as int),
            trim(s@) == trim_end(s@.subrange(a as int, b as int)),
        decreases b,
    {
        proof {
            assert(s@.subrange(a as int, b as int).drop_last() =~= s@.subrange(a as int, b - 1));
        }
        b = b - 1;
    }
    proof {
        if b == s.len() {
            assert(s@.subrange(a as int, b as int) =~= s@.skip(a as int));
        }
    }
    let mut out: Vec<char> = Vec::new();
    let mut i: usize = a;
    while i < b
        invariant
            a <= i <= b <= s.len(),
            out@ == s@.subrange(a as int, i as int),
        decreases b - i,
    {
        out.push(s[i]);
        proof {
            assert(s@.subrange(a as int, i + 1) =~= s@.subrange(a as int, i as int).push(
                s@[i as int],
            ));
        }
        i = i + 1;
    }
    out
}


/// The tags of a Letterboxd `Tags` field.
pub fn tags_from_field(s: &str) -> (res: Vec<String>)
    ensures
        strings_view(res@) == tags_of(s@),
{
    let cs = chars_of(s);
    let mut tags: Vec<String> = Vec::new();
    if cs.len() == 0 {
        proof {
            assert(strings_view(tags@) =~= Seq::<Seq<char>>::empty());
        }
        return tags;
    }
    // Pieces completed so far are in `tags` (already filtered); `cur` is the
    // piece being read.
    let mut cur: Vec<char> = Vec::new();
    let mut i: usize = 0;
    while i < cs.len()
        invariant
            i <= cs.len(),
            cs@ == s@,
            comma_pieces(cs@.take(i as int)).len() > 0,
            cur@ == comma_pieces(cs@.take(i as int)).last(),
            strings_view(tags@) == kept_tags(comma_pieces(cs@.take(i as int)).drop_last()),
        decreases cs.len() - i,
    {
        let ghost pre = cs@.take(i as int);
        proof {
            assert(cs@.take(i + 1).drop_last() =~= pre);
            lemma_comma_pieces_nonempty(pre);
        }
        if cs[i] == ',' {
            let t = trim_chars(&cur);
            let ghost before = strings_view(tags@);
            if t.len() > 0 {
                tags.push(crate::text::string_of(&t));
                proof {
                    assert(strings_view(tags@) =~= before.push(t@));
                }
            }
            cur = Vec::new();
            proof {
                let ps = comma_pieces(pre);
                assert(comma_pieces(cs@.take(i + 1)) == ps.push(Seq::empty()));
                assert(ps.push(Seq::empty()).drop_last() =~= ps);
                assert(ps.drop_last().push(ps.last()) =~= ps);
            }
        } else {
            cur.push(cs[i]);
            proof {
                let ps = comma_pieces(pre);
                let ps2 = ps.update(ps.len() - 1, ps.last().push(cs@[i as int]));
                assert(comma_pieces(cs@.take(i + 1)) == ps2);
                assert(ps2.drop_last() =~= ps.drop_last());
            }
        }
        i = i + 1;
    }
    let t = trim_chars(&cur);
    let ghost before = strings_view(tags@);
    if t.len() > 0 {
        tags.push(crate::text::string_of(&t));
        proof {
            assert(strings_view(tags@) =~= before.push(t@));
        }
    }
    proof {
        assert(cs@.take(cs@.len() as int) =~= cs@);
        let ps = comma_pieces(cs@);
        assert(ps.drop_last().push(ps.last()) =~= ps);
    }
    tags
}

/// Whether a `Rewatch` field says yes (ASCII case-insensitive).
pub open spec fn says_yes(s: Seq<char>) -> bool {
    s.len() == 3 && ascii_lower(s[0]) == 'y' && ascii_lower(s[1]) == 'e' && ascii_lower(s[2])
        == 's'
}

fn ascii_lower_char(c: char) -> (res: char)
    ensures
        res == ascii_lower(c),
{
    if 'A' <= c && c <= 'Z' {
        ((c as u8) + 32) as char
    } else {
        c
    }
}

fn is_yes(s: &str) -> (res: bool)
    ensures
        res == says_yes(s@),
{
    let cs = chars_of(s);
    cs.len() == 3 && ascii_lower_char(cs[0]) == 'y' && ascii_lower_char(cs[1]) == 'e'
        && ascii_lower_char(cs[2]) == 's'
}

/// Whether `c` is `e` or `E`.
pub open spec fn is_exp_mark(c: char) -> bool {
    c == 'e' || c == 'E'
}

/// The index of the first exponent mark of `s`, or its length.
pub open spec fn exp_index(s: Seq<char>) -> int
    decreases s.len(),
{
    if s.len() == 0 {
        0
    } else if is_exp_mark(s[0]) {
        0
    } else {
        1 + exp_index(s.drop_first())
    }
}

/// How many `.` `s` holds.
pub open spec fn dots(s: Seq<char>) -> nat
    decreases s.len(),
{
    if s.len() == 0 {
        0
    } else {
        dots(s.drop_last()) + if s.last() == '.' {
            1nat
        } else {
            0nat
        }
    }
}

/// `Digit+ | Digit+ '.' Digit* | Digit* '.' Digit+`
pub open spec fn mantissa_ok(m: Seq<char>) -> bool {
    &&& dots(m) <= 1
    &&& forall|i: int| 0 <= i < m.len() ==> is_digit(#[trigger] m[i]) || m[i] == '.'
    &&& exists|i: int| 0 <= i < m.len() && is_digit(#[trigger] m[i])
}

/// `s` without a leading `+` or `-`.
pub open spec fn unsigned(s: Seq<char>) -> Seq<char> {
    if s.len() > 0 && (s[0] == '+' || s[0] == '-') {
        s.drop_first()
    } else {
        s
    }
}

/// The part after the exponent mark: `Sign? Digit+`.
pub open spec fn exponent_ok(e: Seq<char>) -> bool {
    unsigned(e).len() > 0 && all_digits(unsigned(e))
}

/// `inf`, `infinity` or `nan`, in any ASCII case.
pub open spec fn special_float(t: Seq<char>) -> bool {
    let l = t.map_values(|c: char| ascii_lower(c));
    l == seq!['i', 'n', 'f'] || l == seq!['i', 'n', 'f', 'i', 'n', 'i', 't', 'y'] || l == seq![
        'n',
        'a',
        'n',
    ]
}

/// The grammar that std's float parsing (`str::parse::<f32>`) documents:
/// `Sign? ( 'inf' | 'infinity' | 'nan' | Number )`, where
/// `Number ::= ( Digit+ | Digit+ '.' Digit* | Digit* '.' Digit+ ) Exp?` and
/// `Exp ::= 'e' Sign? Digit+`, letters in any case.
pub open spec fn is_float_text(s: Seq<char>) -> bool {
    let t = unsigned(s);
    let k = exp_index(t);
    special_float(t) || (mantissa_ok(t.take(k)) && (k == t.len() || exponent_ok(t.skip(k + 1))))
}

fn matches_lower(cs: &Vec<char>, start: usize, word: &Vec<char>) -> (res: bool)
    requires
        start <= cs.len(),
    ensures
        res == (cs@.skip(start as int).map_values(|c: char| ascii_lower(c)) == word@),
{
    if cs.len() - start != word.len() {
        proof {
            assert(cs@.skip(start as int).map_values(|c: char| ascii_lower(c)).len() != word@.len());
        }
        return false;
    }
    let mut i: usize = 0;
    while i < word.len()
        invariant
            i <= word.len() == cs.len() - start,
            forall|j: int| 0 <= j < i ==> ascii_lower(cs@[start + j]) == word@[j],
        decreases word.len() - i,
    {
        if ascii_lower_char(cs[start + i]) != word[i] {
            proof {
                assert(cs@.skip(start as int).map_values(|c: char| ascii_lower(c))[i as int]
                    != word@[i as int]);
            }
            return false;
        }
        i = i + 1;
    }
    proof {
        assert(cs@.skip(start as int).map_values(|c: char| ascii_lower(c)) =~= word@);
    }
    true
}

fn special_float_at(cs: &Vec<char>, start: usize) -> (res: bool)
    requires
        start <= cs.len(),
    ensures
        res == special_float(cs@.skip(start as int)),
{
    let inf = vec!['i', 'n', 'f'];
    let infinity = vec!['i', 'n', 'f', 'i', 'n', 'i', 't', 'y'];
    let nan = vec!['n', 'a', 'n'];
    proof {
        assert(inf@ =~= seq!['i', 'n', 'f']);
        assert(infinity@ =~= seq!['i', 'n', 'f', 'i', 'n', 'i', 't', 'y']);
        assert(nan@ =~= seq!['n', 'a', 'n']);
    }
    matches_lower(cs, start, &inf) || matches_lower(cs, start, &infinity) || matches_lower(
        cs,
        start,
        &nan,
    )
}

/// Scans the mantissa of `t = cs[start..]`: returns where its exponent mark
/// is (or its length) and whether the part before it is a valid mantissa.
fn scan_mantissa(cs: &Vec<char>, start: usize) -> (res: (usize, bool))
    requires
        start <= cs.len(),
    ensures
        start + res.0 <= cs.len(),
        res.0 == exp_index(cs@.skip(start as int)),
        res.1 == mantissa_ok(cs@.skip(start as int).take(res.0 as int)),
{
    let ghost t = cs@.skip(start as int);
    let mut i: usize = start;
    let mut n_dots: usize = 0;
    let mut n_digits: usize = 0;
    let mut ok = true;
    proof {
        assert(t.skip(0) =~= t);
        assert(t.take(0) =~= Seq::<char>::empty());
    }
    while i < cs.len() && !(cs[i] == 'e' || cs[i] == 'E')
        invariant
            start <= i <= cs.len(),
            t == cs@.skip(start as int),
            exp_index(t) == (i - start) + exp_index(t.skip(i - start)),
            n_dots == dots(t.take(i - start)),
            n_dots <= i - start,
            ok == (forall|j: int| 0 <= j < i - start ==> is_digit(#[trigger] t[j]) || t[j] == '.'),
            (n_digits > 0) == (exists|j: int| 0 <= j < i - start && is_digit(#[trigger] t[j])),
            n_digits <= i - start,
        decreases cs.len() - i,
    {
        let c = cs[i];
        let ghost k = (i - start) as int;
        proof {
            assert(t[k] == c);
            assert(t.skip(k)[0] == c);
            assert(t.skip(k).drop_first() =~= t.skip(k + 1));
            assert(t.take(k + 1).drop_last() =~= t.take(k));
        }
        if c == '.' {
            n_dots = n_dots + 1;
        } else if '0' <= c && c <= '9' {
            n_digits = n_digits + 1;
        } else {
            ok = false;
        }
        proof {
            if is_digit(c) {
                assert(is_digit(t[k]));
            }
            if n_digits > 0 && !is_digit(c) {
                let j = choose|j: int| 0 <= j < k && is_digit(#[trigger] t[j]);
                assert(is_digit(t[j]));
            }
        }
        i = i + 1;
    }
    let k = i - start;
    proof {
        if i < cs.len() {
            assert(t.skip(k as int)[0] == cs@[i as int]);
        } else {
            assert(t.skip(k as int).len() == 0);
        }
        assert(exp_index(t) == k);
        let m = t.take(k as int);
        assert forall|j: int| 0 <= j < k implies m[j] == t[j] by {}
        if ok {
            assert forall|j: int| 0 <= j < m.len() implies is_digit(#[trigger] m[j]) || m[j] == '.' by {
                assert(m[j] == t[j]);
            }
        } else {
            if mantissa_ok(m) {
                assert forall|j: int| 0 <= j < k implies is_digit(#[trigger] t[j]) || t[j] == '.' by {
                    assert(m[j] == t[j]);
                }
            }
        }
        if n_digits > 0 {
            let j = choose|j: int| 0 <= j < k && is_digit(#[trigger] t[j]);
            assert(is_digit(m[j]));
        } else {
            if mantissa_ok(m) {
                let j = choose|j: int| 0 <= j < m.len() && is_digit(#[trigger] m[j]);
                assert(is_digit(t[j]));
            }
        }
    }
    (k, ok && n_dots <= 1 && n_digits > 0)
}

/// Whether `cs[from..]` is an exponent body: optional sign, then digits.
fn exponent_at(cs: &Vec<char>, from: usize) -> (res: bool)
    requires
        from <= cs.len(),
    ensures
        res == exponent_ok(cs@.skip(from as int)),
{
    let ghost e = cs@.skip(from as int);
    let mut j: usize = from;
    if j < cs.len() && (cs[j] == '+' || cs[j] == '-') {
        j = j + 1;
    }
    proof {
        assert(unsigned(e) =~= cs@.skip(j as int));
    }
    if j == cs.len() {
        return false;
    }
    let mut p: usize = j;
    while p < cs.len()
        invariant
            j <= p <= cs.len(),
            unsigned(e) == cs@.skip(j as int),
            e == cs@.skip(from as int),
            forall|q: int| j <= q < p ==> is_digit(#[trigger] cs@[q]),
        decreases cs.len() - p,
    {
        if !('0' <= cs[p] && cs[p] <= '9') {
            proof {
                assert(cs@.skip(j as int)[p - j] == cs@[p as int]);
                assert(!is_digit(cs@.skip(j as int)[p - j]));
                assert(!all_digits(unsigned(e)));
            }
            return false;
        }
        p = p + 1;
    }
    proof {
        assert forall|q: int| 0 <= q < cs@.skip(j as int).len() implies is_digit(
            #[trigger] cs@.skip(j as int)[q],
        ) by {
            assert(cs@.skip(j as int)[q] == cs@[j + q]);
        }
    }
    true
}

/// Whether `s` is text that std's float parsing accepts.
pub fn float_text(s: &str) -> (res: bool)
    ensures
        res == is_float_text(s@),
{
    let cs = chars_of(s);
    let start: usize = if cs.len() > 0 && (cs[0] == '+' || cs[0] == '-') {
        1
    } else {
        0
    };
    let ghost t = unsigned(cs@);
    proof {
        assert(t =~= cs@.skip(start as int));
    }
    if special_float_at(&cs, start) {
        return true;
    }
    let (k, ok) = scan_mantissa(&cs, start);
    if !ok {
        return false;
    }
    if start + k == cs.len() {
        return true;
    }
    proof {
        assert(t.skip(k + 1) =~= cs@.skip(start + k + 1));
    }
    exponent_at(&cs, start + k + 1)
}

/// The text of a `Rating` field: absent when empty, rejected (the row is
/// skipped) when it is not a number.
pub open spec fn rating_field(s: Seq<char>) -> Option<Option<Seq<char>>> {
    if s.len() == 0 {
        Some(None)
    } else if is_float_text(s) {
        Some(Some(s))
    } else {
        None
    }
}

// ---------------------------------------------------------------------------
// Rows
// ---------------------------------------------------------------------------

/// The shared part of every row: Name, Year and Letterboxd URI must be
/// present, and Year must be a number.
pub open spec fn required_fields(h: Seq<Seq<char>>, r: Seq<Seq<char>>) -> Option<u32> {
    let name = named(h, r, "Name"@);
    let year = named(h, r, "Year"@);
    let uri = named(h, r, "Letterboxd URI"@);
    if name.len() == 0 || year.len() == 0 || uri.len() == 0 {
        None
    } else {
        parsed_u32(year)
    }
}

/// One record read as a row of the given kind: `has_rating` rows carry an
/// optional rating; `rating_required` rows must have one; `has_diary` rows
/// carry rewatch, tags and watched date; `has_review` rows carry the review.
pub open spec fn row_of(
    h: Seq<Seq<char>>,
    r: Seq<Seq<char>>,
    has_rating: bool,
    rating_required: bool,
    has_diary: bool,
    has_review: bool,
) -> Option<RowView> {
    match required_fields(h, r) {
        None => None,
        Some(year) => {
            let rating_text = named(h, r, "Rating"@);
            let rating = if has_rating {
                rating_field(rating_text)
            } else {
                Some(None)
            };
            if rating_required && rating_text.len() == 0 {
                None
            } else {
                match rating {
                    None => None,
                    Some(rating) => Some(
                        RowView {
                            logged_date: named(h, r, "Date"@),
                            name: named(h, r, "Name"@),
                            year,
                            letterboxd_uri: named(h, r, "Letterboxd URI"@),
                            slug: slug_of(named(h, r, "Letterboxd URI"@)),
                            rating,
                            rewatch: has_diary && says_yes(named(h, r, "Rewatch"@)),
                            tags: if has_diary {
                                tags_of(named(h, r, "Tags"@))
                            } else {
                                Seq::empty()
                            },
                            watched_date: if has_diary {
                                named(h, r, "Watched Date"@)
                            } else {
                                Seq::empty()
                            },
                            review: if has_review {
                                named(h, r, "Review"@)
                            } else {
                                Seq::empty()
                            },
                        },
                    ),
                }
            }
        },
    }
}

/// The rows of a file of the given kind, in file order, malformed ones left out.
pub open spec fn rows_of(
    h: Seq<Seq<char>>,
    recs: Seq<Option<Seq<Seq<char>>>>,
    has_rating: bool,
    rating_required: bool,
    has_diary: bool,
    has_review: bool,
) -> Seq<RowView>
    decreases recs.len(),
{
    if recs.len() == 0 {
        Seq::empty()
    } else {
        let rest = rows_of(
            h,
            recs.drop_last(),
            has_rating,
            rating_required,
            has_diary,
            has_review,
        );
        match recs.last() {
            None => rest,
            Some(r) => match row_of(h, r, has_rating, rating_required, has_diary, has_review) {
                Some(v) => rest.push(v),
                None => rest,
            },
        }
    }
}

/// The rows of a whole file: none when its header cannot be read.
pub open spec fn file_rows(
    content: Seq<char>,
    has_rating: bool,
    rating_required: bool,
    has_diary: bool,
    has_review: bool,
) -> Seq<RowView> {
    match csv_header_of(content) {
        None => Seq::empty(),
        Some(h) => rows_of(
            h,
            csv_records_of(content),
            has_rating,
            rating_required,
            has_diary,
            has_review,
        ),
    }
}

/// The columns a file's reader looks up, by index.
struct Columns {
    date: Option<usize>,
    name: Option<usize>,
    year: Option<usize>,
    uri: Option<usize>,
    rating: Option<usize>,
    rewatch: Option<usize>,
    tags: Option<usize>,
    watched: Option<usize>,
    review: Option<usize>,
}

spec fn opt_int(o: Option<usize>) -> Option<int> {
    match o {
        Some(i) => Some(i as int),
        None => None,
    }
}

impl Columns {
    spec fn matches(&self, h: Seq<Seq<char>>) -> bool {
        &&& opt_int(self.date) == column(h, "Date"@)
        &&& opt_int(self.name) == column(h, "Name"@)
        &&& opt_int(self.year) == column(h, "Year"@)
        &&& opt_int(self.uri) == column(h, "Letterboxd URI"@)
        &&& opt_int(self.rating) == column(h, "Rating"@)
        &&& opt_int(self.rewatch) == column(h, "Rewatch"@)
        &&& opt_int(self.tags) == column(h, "Tags"@)
        &&& opt_int(self.watched) == column(h, "Watched Date"@)
        &&& opt_int(self.review) == column(h, "Review"@)
    }

    fn find(headers: &Vec<String>) -> (res: Columns)
        ensures
            res.matches(strings_view(headers@)),
    {
        Columns {
            date: col_idx(headers, "Date"),
            name: col_idx(headers, "Name"),
            year: col_idx(headers, "Year"),
            uri: col_idx(headers, "Letterboxd URI"),
            rating: col_idx(headers, "Rating"),
            rewatch: col_idx(headers, "Rewatch"),
            tags: col_idx(headers, "Tags"),
            watched: col_idx(headers, "Watched Date"),
            review: col_idx(headers, "Review"),
        }
    }
}

/// A row read into its text fields, for every file kind.
pub struct RawRow {
    pub logged_date: String,
    pub name: String,
    pub year: u32,
    pub uri: String,
    pub slug: String,
    pub rating: Option<String>,
    pub rewatch: bool,
    pub tags: Vec<String>,
    pub watched_date: String,
    pub review: String,
}

pub open spec fn raw_view(r: RawRow) -> RowView {
    RowView {
        logged_date: r.logged_date@,
        name: r.name@,
        year: r.year,
        letterboxd_uri: r.uri@,
        slug: r.slug@,
        rating: opt_view(r.rating),
        rewatch: r.rewatch,
        tags: strings_view(r.tags@),
        watched_date: r.watched_date@,
        review: r.review@,
    }
}

fn read_row(
    cols: &Columns,
    record: &Vec<String>,
    has_rating: bool,
    rating_required: bool,
    has_diary: bool,
    has_review: bool,
    Ghost(h): Ghost<Seq<Seq<char>>>,
) -> (res: Option<RawRow>)
    requires
        cols.matches(h),
    ensures
        match (res, row_of(h, strings_view(record@), has_rating, rating_required, has_diary, has_review)) {
            (Some(r), Some(v)) => raw_view(r) == v,
            (None, None) => true,
            _ => false,
        },
{
    let ghost rv = strings_view(record@);
    let name = get_field(record, cols.name);
    let year_text = get_field(record, cols.year);
    let uri = get_field(record, cols.uri);
    if name.as_str().is_empty() || year_text.as_str().is_empty() || uri.as_str().is_empty() {
        return None;
    }
    let year = match parse_u32(year_text.as_str()) {
        Some(y) => y,
        None => {
            return None;
        },
    };
    let rating_text = get_field(record, cols.rating);
    if rating_required && rating_text.as_str().is_empty() {
        return None;
    }
    let rating = if has_rating {
        if rating_text.as_str().is_empty() {
            None
        } else if float_text(rating_text.as_str()) {
            Some(rating_text)
        } else {
            return None;
        }
    } else {
        None
    };
    let rewatch = if has_diary {
        is_yes(get_field(record, cols.rewatch).as_str())
    } else {
        false
    };
    let tags = if has_diary {
        tags_from_field(get_field(record, cols.tags).as_str())
    } else {
        Vec::new()
    };
    let watched_date = if has_diary {
        get_field(record, cols.watched)
    } else {
        String::new()
    };
    let review = if has_review {
        get_field(record, cols.review)
    } else {
        String::new()
    };
    let slug = slug_from_uri(uri.as_str());
    let r = RawRow {
        logged_date: get_field(record, cols.date),
        name,
        year,
        uri,
        slug,
        rating,
        rewatch,
        tags,
        watched_date,
        review,
    };
    proof {
        if !has_diary {
            assert(strings_view(r.tags@) =~= Seq::<Seq<char>>::empty());
        }
        assert(raw_view(r) =~= row_of(h, rv, has_rating, rating_required, has_diary, has_review).unwrap());
    }
    Some(r)
}

/// The records as the csv reader hands them out, by view.
pub open spec fn records_view(rs: Seq<Option<Vec<String>>>) -> Seq<Option<Seq<Seq<char>>>> {
    rs.map_values(
        |r: Option<Vec<String>>|
            match r {
                Some(f) => Some(strings_view(f@)),
                None => None,
            },
    )
}

/// Reads the data records of a file, under its header, into rows: a record
/// the reader rejected, or one that lacks a required field or has a bad year
/// or rating, is left out; the others are kept in order.
pub fn rows_from_records(
    headers: &Vec<String>,
    records: &Vec<Option<Vec<String>>>,
    has_rating: bool,
    rating_required: bool,
    has_diary: bool,
    has_review: bool,
) -> (res: Vec<RawRow>)
    ensures
        res@.map_values(|r: RawRow| raw_view(r)) == rows_of(
            strings_view(headers@),
            records_view(records@),
            has_rating,
            rating_required,
            has_diary,
            has_review,
        ),
{
    let ghost h = strings_view(headers@);
    let ghost recs = records_view(records@);
    let cols = Columns::find(headers);
    let mut out: Vec<RawRow> = Vec::new();
    let mut i: usize = 0;
    while i < records.len()
        invariant
            i <= records.len(),
            cols.matches(h),
            recs == records_view(records@),
            out@.map_values(|r: RawRow| raw_view(r)) == rows_of(
                h,
                recs.take(i as int),
                has_rating,
                rating_required,
                has_diary,
                has_review,
            ),
        decreases records.len() - i,
    {
        proof {
            assert(recs.take(i + 1).drop_last() =~= recs.take(i as int));
            assert(recs.take(i + 1).last() == recs[i as int]);
        }
        match &records[i] {
            Some(fields) => {
                let ghost before = out@.map_values(|r: RawRow| raw_view(r));
                match read_row(
                    &cols,
                    fields,
                    has_rating,
                    rating_required,
                    has_diary,
                    has_review,
                    Ghost(h),
                ) {
                    Some(row) => {
                        out.push(row);
                        proof {
                            assert(out@.map_values(|r: RawRow| raw_view(r)) =~= before.push(
                                raw_view(out@.last()),
                            ));
                        }
                    },
                    None => {},
                }
            },
            None => {},
        }
        i = i + 1;
    }
    proof {
        assert(recs.take(recs.len() as int) =~= recs);
    }
    out
}

fn read_rows(
    content: &str,
    has_rating: bool,
    rating_required: bool,
    has_diary: bool,
    has_review: bool,
) -> (res: Vec<RawRow>)
    ensures
        res@.map_values(|r: RawRow| raw_view(r)) == file_rows(
            content@,
            has_rating,
            rating_required,
            has_diary,
            has_review,
        ),
{
    match csv_header(content) {
        Some(headers) => {
            let records = csv_records(content);
            rows_from_records(&headers, &records, has_rating, rating_required, has_diary, has_review)
        },
        None => {
            let out: Vec<RawRow> = Vec::new();
            proof {
                assert(out@.map_values(|r: RawRow| raw_view(r)) =~= Seq::<RowView>::empty());
            }
            out
        },
    }
}

/// `diary.csv`: Date, Name, Year, Letterboxd URI, Rating, Rewatch, Tags, Watched Date.
pub open spec fn diary_rows(content: Seq<char>) -> Seq<RowView> {
    file_rows(content, true, false, true, false)
}

/// `watched.csv`: Date, Name, Year, Letterboxd URI.
pub open spec fn watched_rows(content: Seq<char>) -> Seq<RowView> {
    file_rows(content, false, false, false, false)
}

/// `ratings.csv`: Date, Name, Year, Letterboxd URI, Rating (required).
pub open spec fn rating_rows(content: Seq<char>) -> Seq<RowView> {
    file_rows(content, true, true, false, false)
}

/// `watchlist.csv`: Date, Name, Year, Letterboxd URI.
pub open spec fn watchlist_rows(content: Seq<char>) -> Seq<RowView> {
    file_rows(content, false, false, false, false)
}

/// `reviews.csv`: the diary columns plus Review.
pub open spec fn review_rows(content: Seq<char>) -> Seq<RowView> {
    file_rows(content, true, false, true, true)
}

proof fn lemma_rows_shape(
    h: Seq<Seq<char>>,
    recs: Seq<Option<Seq<Seq<char>>>>,
    has_rating: bool,
    rating_required: bool,
    has_diary: bool,
    has_review: bool,
)
    ensures
        forall|k: int|
            0 <= k < rows_of(h, recs, has_rating, rating_required, has_diary, has_review).len()
                ==> row_shape(
                #[trigger] rows_of(h, recs, has_rating, rating_required, has_diary, has_review)[k],
                has_rating,
                rating_required,
                has_diary,
                has_review,
            ),
    decreases recs.len(),
{
    if recs.len() > 0 {
        lemma_rows_shape(h, recs.drop_last(), has_rating, rating_required, has_diary, has_review);
        let rest = rows_of(h, recs.drop_last(), has_rating, rating_required, has_diary, has_review);
        let all = rows_of(h, recs, has_rating, rating_required, has_diary, has_review);
        match recs.last() {
            None => {},
            Some(r) => match row_of(h, r, has_rating, rating_required, has_diary, has_review) {
                Some(v) => {
                    assert(row_shape(v, has_rating, rating_required, has_diary, has_review));
                    assert forall|k: int| 0 <= k < all.len() implies row_shape(
                        #[trigger] all[k],
                        has_rating,
                        rating_required,
                        has_diary,
                        has_review,
                    ) by {
                        if k < rest.len() {
                            assert(all[k] == rest[k]);
                        }
                    }
                },
                None => {},
            },
        }
    }
}

/// The fields a row of the given kind leaves empty.
pub open spec fn row_shape(
    v: RowView,
    has_rating: bool,
    rating_required: bool,
    has_diary: bool,
    has_review: bool,
) -> bool {
    &&& !has_rating ==> v.rating is None
    &&& (has_rating && rating_required) ==> v.rating is Some
    &&& !has_diary ==> !v.rewatch && v.tags.len() == 0 && v.watched_date.len() == 0
    &&& !has_review ==> v.review.len() == 0
}

proof fn lemma_file_shape(
    content: Seq<char>,
    has_rating: bool,
    rating_required: bool,
    has_diary: bool,
    has_review: bool,
)
    ensures
        forall|k: int|
            0 <= k < file_rows(content, has_rating, rating_required, has_diary, has_review).len()
                ==> row_shape(
                #[trigger] file_rows(content, has_rating, rating_required, has_diary, has_review)[k],
                has_rating,
                rating_required,
                has_diary,
                has_review,
            ),
{
    match csv_header_of(content) {
        None => {},
        Some(h) => lemma_rows_shape(
            h,
            csv_records_of(content),
            has_rating,
            rating_required,
            has_diary,
            has_review,
        ),
    }
}

pub fn parse_diary(content: &str) -> (res: Vec<DiaryEntry>)
    ensures
        res@.map_values(|e: DiaryEntry| diary_view(e)) == diary_rows(content@),
{
    let mut raw = read_rows(content, true, false, true, false);
    let ghost rows = raw@.map_values(|r: RawRow| raw_view(r));
    proof {
        lemma_file_shape(content@, true, false, true, false);
    }
    let mut out: Vec<DiaryEntry> = Vec::new();
    while raw.len() > 0
        invariant
            rows == diary_rows(content@),
            forall|k: int| 0 <= k < rows.len() ==> row_shape(#[trigger] rows[k], true, false, true, false),
            out@.map_values(|e: DiaryEntry| diary_view(e)) + raw@.map_values(|r: RawRow| raw_view(r)) == rows,
        decreases raw.len(),
    {
        let ghost before_out = out@.map_values(|e: DiaryEntry| diary_view(e));
        let ghost before_raw = raw@.map_values(|r: RawRow| raw_view(r));
        let r = raw.remove(0);
        let ghost rvw = raw_view(r);
        proof {
            assert(before_raw[0] == raw_view(r));
            assert(row_shape(rows[before_out.len() as int], true, false, true, false));
            assert(rows[before_out.len() as int] == before_raw[0]);
        }
        out.push(
            DiaryEntry {
                logged_date: r.logged_date,
                name: r.name,
                year: r.year,
                letterboxd_uri: r.uri,
                slug: r.slug,
                rating: r.rating,
                rewatch: r.rewatch,
                tags: r.tags,
                watched_date: r.watched_date,
            },
        );
        proof {
            let e = out@.last();
            assert(rvw.review.len() == 0);
            assert(diary_view(e).review =~= rvw.review);
            assert(diary_view(e) == rvw);
            assert(out@.map_values(|e: DiaryEntry| diary_view(e)) =~= before_out.push(before_raw[0]));
            assert(raw@.map_values(|r: RawRow| raw_view(r)) =~= before_raw.drop_first());
            assert(before_out.push(before_raw[0]) + before_raw.drop_first() =~= before_out + before_raw);
        }
    }
    proof {
        assert(out@.map_values(|e: DiaryEntry| diary_view(e)) + raw@.map_values(|r: RawRow| raw_view(r)) =~= out@.map_values(|e: DiaryEntry| diary_view(e)));
    }
    out
}

pub fn parse_watched(content: &str) -> (res: Vec<WatchedEntry>)
    ensures
        res@.map_values(|e: WatchedEntry| watched_view(e)) == watched_rows(content@),
{
    let mut raw = read_rows(content, false, false, false, false);
    let ghost rows = raw@.map_values(|r: RawRow| raw_view(r));
    proof {
        lemma_file_shape(content@, false, false, false, false);
    }
    let mut out: Vec<WatchedEntry> = Vec::new();
    while raw.len() > 0
        invariant
            rows == watched_rows(content@),
            forall|k: int| 0 <= k < rows.len() ==> row_shape(#[trigger] rows[k], false, false, false, false),
            out@.map_values(|e: WatchedEntry| watched_view(e)) + raw@.map_values(|r: RawRow| raw_view(r)) == rows,
        decreases raw.len(),
    {
        let ghost before_out = out@.map_values(|e: WatchedEntry| watched_view(e));
        let ghost before_raw = raw@.map_values(|r: RawRow| raw_view(r));
        let r = raw.remove(0);
        let ghost rvw = raw_view(r);
        proof {
            assert(before_raw[0] == raw_view(r));
            assert(row_shape(rows[before_out.len() as int], false, false, false, false));
            assert(rows[before_out.len() as int] == before_raw[0]);
        }
        out.push(
            WatchedEntry {
                logged_date: r.logged_date,
                name: r.name,
                year: r.year,
                letterboxd_uri: r.uri,
                slug: r.slug,
                
            },
        );
        proof {
            let e = out@.last();
            assert(watched_view(e).tags =~= rvw.tags);
            assert(watched_view(e).watched_date =~= rvw.watched_date);
            assert(watched_view(e).review =~= rvw.review);
            assert(watched_view(e) == rvw);
            assert(out@.map_values(|e: WatchedEntry| watched_view(e)) =~= before_out.push(before_raw[0]));
            assert(raw@.map_values(|r: RawRow| raw_view(r)) =~= before_raw.drop_first());
            assert(before_out.push(before_raw[0]) + before_raw.drop_first() =~= before_out + before_raw);
        }
    }
    proof {
        assert(out@.map_values(|e: WatchedEntry| watched_view(e)) + raw@.map_values(|r: RawRow| raw_view(r)) =~= out@.map_values(|e: WatchedEntry| watched_view(e)));
    }
    out
}

pub fn parse_ratings(content: &str) -> (res: Vec<RatingEntry>)
    ensures
        res@.map_values(|e: RatingEntry| rating_view(e)) == rating_rows(content@),
{
    let mut raw = read_rows(content, true, true, false, false);
    let ghost rows = raw@.map_values(|r: RawRow| raw_view(r));
    proof {
        lemma_file_shape(content@, true, true, false, false);
    }
    let mut out: Vec<RatingEntry> = Vec::new();
    while raw.len() > 0
        invariant
            rows == rating_rows(content@),
            forall|k: int| 0 <= k < rows.len() ==> row_shape(#[trigger] rows[k], true, true, false, false),
            out@.map_values(|e: RatingEntry| rating_view(e)) + raw@.map_values(|r: RawRow| raw_view(r)) == rows,
        decreases raw.len(),
    {
        let ghost before_out = out@.map_values(|e: RatingEntry| rating_view(e));
        let ghost before_raw = raw@.map_values(|r: RawRow| raw_view(r));
        let r = raw.remove(0);
        let ghost rvw = raw_view(r);
        proof {
            assert(before_raw[0] == raw_view(r));
            assert(row_shape(rows[before_out.len() as int], true, true, false, false));
            assert(rows[before_out.len() as int] == before_raw[0]);
        }
        out.push(
            RatingEntry {
                logged_date: r.logged_date,
                name: r.name,
                year: r.year,
                letterboxd_uri: r.uri,
                slug: r.slug,
                rating: r.rating.unwrap(),
            },
        );
        proof {
            let e = out@.last();
            assert(rating_view(e).tags =~= rvw.tags);
            assert(rating_view(e).watched_date =~= rvw.watched_date);
            assert(rating_view(e).review =~= rvw.review);
            assert(rating_view(e) == rvw);
            assert(out@.map_values(|e: RatingEntry| rating_view(e)) =~= before_out.push(before_raw[0]));
            assert(raw@.map_values(|r: RawRow| raw_view(r)) =~= before_raw.drop_first());
            assert(before_out.push(before_raw[0]) + before_raw.drop_first() =~= before_out + before_raw);
        }
    }
    proof {
        assert(out@.map_values(|e: RatingEntry| rating_view(e)) + raw@.map_values(|r: RawRow| raw_view(r)) =~= out@.map_values(|e: RatingEntry| rating_view(e)));
    }
    out
}

pub fn parse_watchlist(content: &str) -> (res: Vec<WatchlistEntry>)
    ensures
        res@.map_values(|e: WatchlistEntry| watchlist_view(e)) == watchlist_rows(content@),
{
    let mut raw = read_rows(content, false, false, false, false);
    let ghost rows = raw@.map_values(|r: RawRow| raw_view(r));
    proof {
        lemma_file_shape(content@, false, false, false, false);
    }
    let mut out: Vec<WatchlistEntry> = Vec::new();
    while raw.len() > 0
        invariant
            rows == watchlist_rows(content@),
            forall|k: int| 0 <= k < rows.len() ==> row_shape(#[trigger] rows[k], false, false, false, false),
            out@.map_values(|e: WatchlistEntry| watchlist_view(e)) + raw@.map_values(|r: RawRow| raw_view(r)) == rows,
        decreases raw.len(),
    {
        let ghost before_out = out@.map_values(|e: WatchlistEntry| watchlist_view(e));
        let ghost before_raw = raw@.map_values(|r: RawRow| raw_view(r));
        let r = raw.remove(0);
        let ghost rvw = raw_view(r);
        proof {
            assert(before_raw[0] == raw_view(r));
            assert(row_shape(rows[before_out.len() as int], false, false, false, false));
            assert(rows[before_out.len() as int] == before_raw[0]);
        }
        out.push(
            WatchlistEntry {
                logged_date: r.logged_date,
                name: r.name,
                year: r.year,
                letterboxd_uri: r.uri,
                slug: r.slug,
                
            },
        );
        proof {
            let e = out@.last();
            assert(watchlist_view(e).tags =~= rvw.tags);
            assert(watchlist_view(e).watched_date =~= rvw.watched_date);
            assert(watchlist_view(e).review =~= rvw.review);
            assert(watchlist_view(e) == rvw);
            assert(out@.map_values(|e: WatchlistEntry| watchlist_view(e)) =~= before_out.push(before_raw[0]));
            assert(raw@.map_values(|r: RawRow| raw_view(r)) =~= before_raw.drop_first());
            assert(before_out.push(before_raw[0]) + before_raw.drop_first() =~= before_out + before_raw);
        }
    }
    proof {
        assert(out@.map_values(|e: WatchlistEntry| watchlist_view(e)) + raw@.map_values(|r: RawRow| raw_view(r)) =~= out@.map_values(|e: WatchlistEntry| watchlist_view(e)));
    }
    out
}

pub fn parse_reviews(content: &str) -> (res: Vec<ReviewEntry>)
    ensures
        res@.map_values(|e: ReviewEntry| review_view(e)) == review_rows(content@),
{
    let mut raw = read_rows(content, true, false, true, true);
    let ghost rows = raw@.map_values(|r: RawRow| raw_view(r));
    proof {
        lemma_file_shape(content@, true, false, true, true);
    }
    let mut out: Vec<ReviewEntry> = Vec::new();
    while raw.len() > 0
        invariant
            rows == review_rows(content@),
            forall|k: int| 0 <= k < rows.len() ==> row_shape(#[trigger] rows[k], true, false, true, true),
            out@.map_values(|e: ReviewEntry| review_view(e)) + raw@.map_values(|r: RawRow| raw_view(r)) == rows,
        decreases raw.len(),
    {
        let ghost before_out = out@.map_values(|e: ReviewEntry| review_view(e));
        let ghost before_raw = raw@.map_values(|r: RawRow| raw_view(r));
        let r = raw.remove(0);
        let ghost rvw = raw_view(r);
        proof {
            assert(before_raw[0] == raw_view(r));
            assert(row_shape(rows[before_out.len() as int], true, false, true, true));
            assert(rows[before_out.len() as int] == before_raw[0]);
        }
        out.push(
            ReviewEntry {
                logged_date: r.logged_date,
                name: r.name,
                year: r.year,
                letterboxd_uri: r.uri,
                slug: r.slug,
                rating: r.rating,
                rewatch: r.rewatch,
                tags: r.tags,
                watched_date: r.watched_date,
                review: r.review,
            },
        );
        proof {
            let e = out@.last();

            assert(review_view(e) == rvw);
            assert(out@.map_values(|e: ReviewEntry| review_view(e)) =~= before_out.push(before_raw[0]));
            assert(raw@.map_values(|r: RawRow| raw_view(r)) =~= before_raw.drop_first());
            assert(before_out.push(before_raw[0]) + before_raw.drop_first() =~= before_out + before_raw);
        }
    }
    proof {
        assert(out@.map_values(|e: ReviewEntry| review_view(e)) + raw@.map_values(|r: RawRow| raw_view(r)) =~= out@.map_values(|e: ReviewEntry| review_view(e)));
    }
    out
}

// ---------------------------------------------------------------------------
// Whole exports
// ---------------------------------------------------------------------------

/// The rows of a file that may be absent from the export (absent reads as empty).
pub open spec fn present_rows(
    content: Option<Seq<char>>,
    has_rating: bool,
    rating_required: bool,
    has_diary: bool,
    has_review: bool,
) -> Seq<RowView> {
    match content {
        Some(c) => file_rows(c, has_rating, rating_required, has_diary, has_review),
        None => Seq::empty(),
    }
}

pub open spec fn str_opt_view(o: Option<&str>) -> Option<Seq<char>> {
    match o {
        Some(s) => Some(s@),
        None => None,
    }
}

/// The export read from the five files' contents.
pub open spec fn export_matches(
    x: LetterboxdExport,
    diary: Option<Seq<char>>,
    watched: Option<Seq<char>>,
    ratings: Option<Seq<char>>,
    watchlist: Option<Seq<char>>,
    reviews: Option<Seq<char>>,
) -> bool {
    &&& x.diary@.map_values(|e: DiaryEntry| diary_view(e)) == present_rows(
        diary,
        true,
        false,
        true,
        false,
    )
    &&& x.watched@.map_values(|e: WatchedEntry| watched_view(e)) == present_rows(
        watched,
        false,
        false,
        false,
        false,
    )
    &&& x.ratings@.map_values(|e: RatingEntry| rating_view(e)) == present_rows(
        ratings,
        true,
        true,
        false,
        false,
    )
    &&& x.watchlist@.map_values(|e: WatchlistEntry| watchlist_view(e)) == present_rows(
        watchlist,
        false,
        false,
        false,
        false,
    )
    &&& x.reviews@.map_values(|e: ReviewEntry| review_view(e)) == present_rows(
        reviews,
        true,
        false,
        true,
        true,
    )
}

impl LetterboxdExport {
    /// An export read from the contents of its CSV files (`None` for a file
    /// the export lacks, which reads as no rows).
    pub fn from_texts(
        diary: Option<&str>,
        watched: Option<&str>,
        ratings: Option<&str>,
        watchlist: Option<&str>,
        reviews: Option<&str>,
    ) -> (res: Self)
        ensures
            export_matches(
                res,
                str_opt_view(diary),
                str_opt_view(watched),
                str_opt_view(ratings),
                str_opt_view(watchlist),
                str_opt_view(reviews),
            ),
    {
        let d = match diary {
            Some(c) => parse_diary(c),
            None => Vec::new(),
        };
        let w = match watched {
            Some(c) => parse_watched(c),
            None => Vec::new(),
        };
        let r = match ratings {
            Some(c) => parse_ratings(c),
            None => Vec::new(),
        };
        let l = match watchlist {
            Some(c) => parse_watchlist(c),
            None => Vec::new(),
        };
        let v = match reviews {
            Some(c) => parse_reviews(c),
            None => Vec::new(),
        };
        let res = LetterboxdExport { diary: d, watched: w, ratings: r, watchlist: l, reviews: v };
        proof {
            if diary is None {
                assert(res.diary@.map_values(|e: DiaryEntry| diary_view(e)) =~= Seq::<RowView>::empty());
            }
            if watched is None {
                assert(res.watched@.map_values(|e: WatchedEntry| watched_view(e)) =~= Seq::<RowView>::empty());
            }
            if ratings is None {
                assert(res.ratings@.map_values(|e: RatingEntry| rating_view(e)) =~= Seq::<RowView>::empty());
            }
            if watchlist is None {
                assert(res.watchlist@.map_values(|e: WatchlistEntry| watchlist_view(e)) =~= Seq::<RowView>::empty());
            }
            if reviews is None {
                assert(res.reviews@.map_values(|e: ReviewEntry| review_view(e)) =~= Seq::<RowView>::empty());
            }
        }
        res
    }

    /// An export read from the bytes of a Letterboxd export ZIP. Fails with
    /// the archive reader's message when the bytes are not a ZIP archive; an
    /// entry that is missing or unreadable reads as no rows.
    pub fn from_zip_bytes(bytes: &[u8]) -> (res: Result<Self, String>)
        ensures
            match res {
                Err(e) => zip_open_error_of(bytes@) == Some(e@),
                Ok(x) => zip_open_error_of(bytes@) is None && export_matches(
                    x,
                    zip_entry_of(bytes@, "diary.csv"@),
                    zip_entry_of(bytes@, "watched.csv"@),
                    zip_entry_of(bytes@, "ratings.csv"@),
                    zip_entry_of(bytes@, "watchlist.csv"@),
                    zip_entry_of(bytes@, "reviews.csv"@),
                ),
            },
    {
        match zip_check(bytes) {
            Err(e) => {
                return Err(e);
            },
            Ok(()) => {},
        }
        let d = zip_entry(bytes, "diary.csv");
        let w = zip_entry(bytes, "watched.csv");
        let r = zip_entry(bytes, "ratings.csv");
        let l = zip_entry(bytes, "watchlist.csv");
        let v = zip_entry(bytes, "reviews.csv");
        Ok(
            Self::from_texts(
                as_opt_str(&d),
                as_opt_str(&w),
                as_opt_str(&r),
                as_opt_str(&l),
                as_opt_str(&v),
            ),
        )
    }
}

fn as_opt_str(o: &Option<String>) -> (res: Option<&str>)
    ensures
        str_opt_view(res) == opt_view(*o),
{
    match o {
        Some(s) => Some(s.as_str()),
        None => None,
    }
}

/// The error text that `zip::ZipArchive::new` reports for these bytes, or
/// `None` when they open as an archive.
pub uninterp spec fn zip_open_error_of(bytes: Seq<u8>) -> Option<Seq<char>>;

/// The UTF-8 text of the named entry of the archive in these bytes, or `None`
/// when the archive has no such entry or it is not readable as text.
pub uninterp spec fn zip_entry_of(bytes: Seq<u8>, name: Seq<char>) -> Option<Seq<char>>;

/// `zip::ZipArchive::new` over the bytes: whether they open as an archive,
/// with the reader's error message when not.
#[verifier::external_body]
fn zip_check(bytes: &[u8]) -> (res: Result<(), String>)
    ensures
        match res {
            Ok(()) => zip_open_error_of(bytes@) is None,
            Err(e) => zip_open_error_of(bytes@) == Some(e@),
        },
{
    match zip::ZipArchive::new(std::io::Cursor::new(bytes)) {
        Ok(_) => Ok(()),
        Err(e) => Err(e.to_string()),
    }
}

/// `zip::ZipArchive::by_name`, read to the end as UTF-8 text.
#[verifier::external_body]
fn zip_entry(bytes: &[u8], name: &str) -> (res: Option<String>)
    ensures
        opt_view(res) == zip_entry_of(bytes@, name@),
{
    let mut archive = zip::ZipArchive::new(std::io::Cursor::new(bytes)).ok()?;
    let mut entry = archive.by_name(name).ok()?;
    let mut content = String::new();
    std::io::Read::read_to_string(&mut entry, &mut content).ok()?;
    Some(content)
}

} // verus!
