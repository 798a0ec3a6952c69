//! Idempotency store: which items have already been synced in which
//! direction, keyed by a composite text key such as
//! `L2T|watched|tmdb:12345|2024-01-15`.
use vstd::prelude::*;
use crate::text::{
    alphanumeric, chars_of, decimal, decimal_string, is_alphanumeric, is_whitespace, join_path,
    joined_path, lowercase, string_of, to_lowercase, whitespace,
};

verus! {

// ---------------------------------------------------------------------------
// Key parts
// ---------------------------------------------------------------------------

pub enum Direction {
    LetterboxdToTrakt,
    TraktToLetterboxd,
}

impl Direction {
    /// The tag that opens every key of this direction.
    pub open spec fn tag(self) -> Seq<char> {
        match self {
            Direction::LetterboxdToTrakt => "L2T"@,
            Direction::TraktToLetterboxd => "T2L"@,
        }
    }

    pub fn as_str(&self) -> (res: &'static str)
        ensures
            res@ == self.tag(),
    {
        match self {
            Direction::LetterboxdToTrakt => "L2T",
            Direction::TraktToLetterboxd => "T2L",
        }
    }
}

pub enum ItemType {
    Watched,
    Rating,
    Watchlist,
    Review,
}

impl ItemType {
    pub open spec fn tag(self) -> Seq<char> {
        match self {
            ItemType::Watched => "watched"@,
            ItemType::Rating => "rating"@,
            ItemType::Watchlist => "watchlist"@,
            ItemType::Review => "review"@,
        }
    }

    pub fn as_str(&self) -> (res: &'static str)
        ensures
            res@ == self.tag(),
    {
        match self {
            ItemType::Watched => "watched",
            ItemType::Rating => "rating",
            ItemType::Watchlist => "watchlist",
            ItemType::Review => "review",
        }
    }
}

// ---------------------------------------------------------------------------
// Whitespace collapsing (the `split_whitespace().join(" ")` idiom)
// ---------------------------------------------------------------------------

/// The maximal runs of non-whitespace characters of `s`, in order: each
/// arriving character either extends the last word, starts a new one, or
/// (whitespace) separates words.
pub open spec fn words(s: Seq<char>) -> Seq<Seq<char>>
    decreases s.len(),
{
    if s.len() == 0 {
        Seq::empty()
    } else {
        let init = words(s.drop_last());
        let c = s.last();
        if whitespace(c) {
            init
        } else if s.len() > 1 && !whitespace(s[s.len() - 2]) {
            init.update(init.len() - 1, init.last().push(c))
        } else {
            init.push(seq![c])
        }
    }
}

/// Words joined by single spaces.
pub open spec fn join_words(ws: Seq<Seq<char>>) -> Seq<char>
    decreases ws.len(),
{
    if ws.len() == 0 {
        Seq::empty()
    } else if ws.len() == 1 {
        ws[0]
    } else {
        join_words(ws.drop_last()) + seq![' '] + ws.last()
    }
}

/// `s` with leading and trailing whitespace removed and every inner run of
/// whitespace replaced by one space.
pub open spec fn collapse_whitespace(s: Seq<char>) -> Seq<char> {
    join_words(words(s))
}

/// A title as it appears inside a key: whitespace collapsed, lowercased, and
/// every character that is not alphanumeric replaced by `_`.
pub open spec fn key_title(title: Seq<char>) -> Seq<char> {
    lowercase(collapse_whitespace(title)).map_values(
        |c: char|
            if alphanumeric(c) {
                c
            } else {
                '_'
            },
    )
}

proof fn lemma_words_nonempty(s: Seq<char>)
    ensures
        forall|i: int| 0 <= i < words(s).len() ==> #[trigger] words(s)[i].len() > 0,
    decreases s.len(),
{
    if s.len() > 0 {
        lemma_words_nonempty(s.drop_last());
        let init = words(s.drop_last());
        let c = s.last();
        if whitespace(c) {
        } else if s.len() > 1 && !whitespace(s[s.len() - 2]) {
            lemma_words_last_open(s.drop_last());
            assert(s.drop_last().last() == s[s.len() - 2]);
            let w = init.update(init.len() - 1, init.last().push(c));
            assert forall|i: int| 0 <= i < w.len() implies #[trigger] w[i].len() > 0 by {
                if i < init.len() - 1 {
                    assert(w[i] == init[i]);
                }
            }
        } else {
            let w = init.push(seq![c]);
            assert forall|i: int| 0 <= i < w.len() implies #[trigger] w[i].len() > 0 by {
                if i < init.len() {
                    assert(w[i] == init[i]);
                }
            }
        }
    }
}

/// Whether `s` ends inside a word.
pub open spec fn ends_in_word(s: Seq<char>) -> bool {
    s.len() > 0 && !whitespace(s.last())
}

proof fn lemma_words_last_open(s: Seq<char>)
    ensures
        ends_in_word(s) ==> words(s).len() > 0,
    decreases s.len(),
{
    if s.len() > 0 {
        lemma_words_last_open(s.drop_last());
    }
}

proof fn lemma_join_extend_last(ws: Seq<Seq<char>>, c: char)
    requires
        ws.len() > 0,
    ensures
        join_words(ws.update(ws.len() - 1, ws.last().push(c))) == join_words(ws).push(c),
{
    let ws2 = ws.update(ws.len() - 1, ws.last().push(c));
    if ws.len() == 1 {
    } else {
        assert(ws2.drop_last() =~= ws.drop_last());
        assert(join_words(ws2) == join_words(ws.drop_last()) + seq![' '] + ws.last().push(c));
        assert(join_words(ws2) =~= join_words(ws).push(c));
    }
}

proof fn lemma_join_new_word(ws: Seq<Seq<char>>, c: char)
    ensures
        join_words(ws.push(seq![c])) == if ws.len() == 0 {
            seq![c]
        } else {
            join_words(ws).push(' ').push(c)
        },
{
    let ws2 = ws.push(seq![c]);
    assert(ws2.drop_last() =~= ws);
    if ws.len() > 0 {
        assert(join_words(ws2) =~= join_words(ws).push(' ').push(c));
    }
}

proof fn lemma_join_empty_iff(ws: Seq<Seq<char>>)
    requires
        forall|i: int| 0 <= i < ws.len() ==> #[trigger] ws[i].len() > 0,
    ensures
        join_words(ws).len() == 0 <==> ws.len() == 0,
    decreases ws.len(),
{
    if ws.len() > 1 {
        assert(ws[ws.len() - 1].len() > 0);
    } else if ws.len() == 1 {
        assert(ws[0].len() > 0);
    }
}

/// Collapses whitespace runs in `cs` to single spaces and trims both ends.
fn collapse_whitespace_chars(cs: &Vec<char>) -> (res: Vec<char>)
    ensures
        res@ == collapse_whitespace(cs@),
{
    let mut out: Vec<char> = Vec::new();
    let mut i: usize = 0;
    while i < cs.len()
        invariant
            i <= cs.len(),
            out@ == join_words(words(cs@.take(i as int))),
        decreases cs.len() - i,
    {
        let c = cs[i];
        let ghost prev = cs@.take(i as int);
        let ghost next = cs@.take(i + 1);
        proof {
            assert(next.drop_last() =~= prev);
            assert(next.last() == c);
            lemma_words_nonempty(prev);
            lemma_join_empty_iff(words(prev));
            lemma_words_last_open(prev);
        }
        if is_whitespace(c) {
        } else if i > 0 && !is_whitespace(cs[i - 1]) {
            proof {
                assert(prev.last() == cs@[i - 1]);
                assert(next[next.len() - 2] == cs@[i - 1]);
                lemma_join_extend_last(words(prev), c);
            }
            out.push(c);
        } else {
            proof {
                if i > 0 {
                    assert(next[next.len() - 2] == cs@[i - 1]);
                }
                lemma_join_new_word(words(prev), c);
                if words(prev).len() > 0 {
                    assert(out@.len() > 0);
                }
            }
            if out.len() > 0 {
                out.push(' ');
            }
            out.push(c);
        }
        i = i + 1;
    }
    proof {
        assert(cs@.take(cs@.len() as int) =~= cs@);
    }
    out
}

/// The form a title takes inside a key.
fn normalize_key_title(title: &str) -> (res: String)
    ensures
        res@ == key_title(title@),
{
    let chars = chars_of(title);
    let collapsed = string_of(&collapse_whitespace_chars(&chars));
    let lower = to_lowercase(collapsed.as_str());
    let lower_chars = chars_of(lower.as_str());
    let mut mapped: Vec<char> = Vec::new();
    let mut i: usize = 0;
    while i < lower_chars.len()
        invariant
            i <= lower_chars.len(),
            lower_chars@ == lowercase(collapse_whitespace(title@)),
            mapped@ == lower_chars@.take(i as int).map_values(
                |c: char|
                    if alphanumeric(c) {
                        c
                    } else {
                        '_'
                    },
            ),
        decreases lower_chars.len() - i,
    {
        let c = lower_chars[i];
        if is_alphanumeric(c) {
            mapped.push(c);
        } else {
            mapped.push('_');
        }
        proof {
            assert(lower_chars@.take(i + 1).drop_last() =~= lower_chars@.take(i as int));
            assert(mapped@ =~= lower_chars@.take(i + 1).map_values(
                |c: char|
                    if alphanumeric(c) {
                        c
                    } else {
                        '_'
                    },
            ));
        }
        i = i + 1;
    }
    proof {
        assert(lower_chars@.take(lower_chars@.len() as int) =~= lower_chars@);
    }
    string_of(&mapped)
}

/// Stable film identifier. Prefer Tmdb when available; fall back to TitleYear
/// for films without a TMDB ID so they still get a deterministic dedup key.
pub enum ItemRef {
    Tmdb(u64),
    TitleYear(String, u16),
}

impl ItemRef {
    /// The film part of a key.
    pub open spec fn segment(&self) -> Seq<char> {
        match self {
            ItemRef::Tmdb(id) => "tmdb:"@ + decimal(*id as nat),
            ItemRef::TitleYear(title, year) => "title:"@ + key_title(title@) + ":"@ + decimal(
                *year as nat,
            ),
        }
    }

    pub fn key_segment(&self) -> (res: String)
        ensures
            res@ == self.segment(),
    {
        match self {
            ItemRef::Tmdb(id) => {
                let mut out = String::new();
                out.append("tmdb:");
                out.append(decimal_string(*id).as_str());
                out
            },
            ItemRef::TitleYear(title, year) => {
                let mut out = String::new();
                out.append("title:");
                out.append(normalize_key_title(title.as_str()).as_str());
                out.append(":");
                out.append(decimal_string(*year as u64).as_str());
                out
            },
        }
    }
}

/// Composite key identifying one synced item in one direction.
/// Serialized as "L2T|watched|tmdb:12345|2024-01-15".
/// For watchlist (set-membership, no specific date), pass an empty string for `date`.
///
/// Callers implementing `--force` skip the `contains()` check entirely; to
/// reset one direction's entire history, call `clear_direction()`.
pub struct SyncKey {
    pub direction: Direction,
    pub item_type: ItemType,
    pub item_ref: ItemRef,
    /// YYYY-MM-DD, or empty for watchlist entries.
    pub date: String,
}

impl SyncKey {
    /// The text form of this key.
    pub open spec fn key_view(&self) -> Seq<char> {
        self.direction.tag() + "|"@ + self.item_type.tag() + "|"@ + self.item_ref.segment() + "|"@
            + self.date@
    }

    pub fn new(direction: Direction, item_type: ItemType, item_ref: ItemRef, date: &str) -> (res:
        Self)
        ensures
            res.direction == direction,
            res.item_type == item_type,
            res.item_ref == item_ref,
            res.date@ == date@,
    {
        let mut d = String::new();
        d.append(date);
        SyncKey { direction, item_type, item_ref, date: d }
    }

    pub fn as_key(&self) -> (res: String)
        ensures
            res@ == self.key_view(),
    {
        let mut out = String::new();
        out.append(self.direction.as_str());
        out.append("|");
        out.append(self.item_type.as_str());
        out.append("|");
        out.append(self.item_ref.key_segment().as_str());
        out.append("|");
        out.append(self.date.as_str());
        out
    }
}

// ---------------------------------------------------------------------------
// The store
// ---------------------------------------------------------------------------

/// The opening of every key recorded for `direction`: its tag and a `|`.
pub open spec fn direction_prefix(direction: Direction) -> Seq<char> {
    direction.tag() + "|"@
}

/// Whether `p` is a prefix of `s`.
pub open spec fn starts_with(s: Seq<char>, p: Seq<char>) -> bool {
    p.len() <= s.len() && s.take(p.len() as int) == p
}

/// Where the store is kept: `sync_state.json` in the data directory.
pub fn state_path(data_dir: &str) -> (res: String)
    ensures
        res@ == joined_path(data_dir@, "sync_state.json"@),
{
    join_path(data_dir, "sync_state.json")
}

/// Persistent idempotency store. Tracks which items have been synced in each
/// direction, as a set of key strings.
pub struct SyncState {
    synced: Vec<String>,
}

impl SyncState {
    /// The stored keys, in insertion order, as character sequences.
    pub closed spec fn entries(&self) -> Seq<Seq<char>> {
        self.synced@.map_values(|s: String| s@)
    }

    /// The set of keys recorded so far.
    pub closed spec fn view(&self) -> Set<Seq<char>> {
        self.entries().to_set()
    }

    /// Well-formedness: no key is stored twice.
    pub closed spec fn wf(&self) -> bool {
        self.entries().no_duplicates()
    }

    proof fn lemma_len(&self)
        requires
            self.wf(),
        ensures
            self.view().len() == self.synced@.len(),
            self.view().finite(),
    {
        self.entries().unique_seq_to_set();
    }

    /// A fresh, empty store.
    pub fn new() -> (res: Self)
        ensures
            res.wf(),
            res.view() == Set::<Seq<char>>::empty(),
    {
        let res = SyncState { synced: Vec::new() };
        proof {
            assert(res.entries() =~= Seq::<Seq<char>>::empty());
        }
        res
    }

    /// A store holding exactly the given keys (duplicates collapse).
    pub fn from_keys(keys: Vec<String>) -> (res: Self)
        ensures
            res.wf(),
            res.view() == keys@.map_values(|s: String| s@).to_set(),
    {
        let mut state = SyncState::new();
        let mut i: usize = 0;
        while i < keys.len()
            invariant
                i <= keys.len(),
                state.wf(),
                state.view() == keys@.take(i as int).map_values(|s: String| s@).to_set(),
            decreases keys.len() - i,
        {
            state.insert_key(keys[i].clone());
            proof {
                let pre = keys@.take(i as int).map_values(|s: String| s@);
                assert(keys@.take(i + 1).map_values(|s: String| s@) =~= pre.push(keys@[i as int]@));
                pre.lemma_push_to_set_commute(keys@[i as int]@);
            }
            i = i + 1;
        }
        proof {
            assert(keys@.take(keys@.len() as int) =~= keys@);
        }
        state
    }

    fn contains_key(&self, key: &String) -> (res: bool)
        requires
            self.wf(),
        ensures
            res == self.view().contains(key@),
    {
        let mut i: usize = 0;
        while i < self.synced.len()
            invariant
                i <= self.synced.len(),
                forall|j: int| 0 <= j < i ==> #[trigger] self.entries()[j] != key@,
            decreases self.synced.len() - i,
        {
            if self.synced[i] == *key {
                proof {
                    assert(self.entries()[i as int] == key@);
                    assert(self.entries().contains(key@));
                }
                return true;
            }
            i = i + 1;
        }
        proof {
            if self.entries().contains(key@) {
                let j = choose|j: int| 0 <= j < self.entries().len() && self.entries()[j] == key@;
                assert(self.entries()[j] != key@);
            }
        }
        false
    }

    fn insert_key(&mut self, key: String)
        requires
            old(self).wf(),
        ensures
            final(self).wf(),
            final(self).view() == old(self).view().insert(key@),
    {
        if !self.contains_key(&key) {
            let ghost before = self.entries();
            let ghost k = key@;
            self.synced.push(key);
            proof {
                assert(self.entries() =~= before.push(k));
                before.lemma_push_to_set_commute(k);
                assert forall|a: int, b: int|
                    0 <= a < self.entries().len() && 0 <= b < self.entries().len() && a != b
                    implies self.entries()[a] != self.entries()[b] by {
                    if a == before.len() {
                        assert(before.contains(self.entries()[b]));
                    } else if b == before.len() {
                        assert(before.contains(self.entries()[a]));
                    }
                }
            }
        } else {
            proof {
                assert(self.view().insert(key@) =~= self.view());
            }
        }
    }

    /// Returns true if this item has already been synced in the given direction.
    pub fn contains(&self, key: &SyncKey) -> (res: bool)
        requires
            self.wf(),
        ensures
            res == self.view().contains(key.key_view()),
    {
        self.contains_key(&key.as_key())
    }

    /// Record an item as synced.
    pub fn mark(&mut self, key: SyncKey)
        requires
            old(self).wf(),
        ensures
            final(self).wf(),
            final(self).view() == old(self).view().insert(key.key_view()),
            final(self).view().finite(),
            final(self).view().len() == old(self).view().len() + (if old(self).view().contains(
                key.key_view(),
            ) {
                0int
            } else {
                1int
            }),
    {
        let ghost before = *self;
        proof {
            before.lemma_len();
        }
        self.insert_key(key.as_key());
        proof {
            self.lemma_len();
        }
    }

    /// Record every key of a completed write, in order.
    pub fn mark_all(&mut self, keys: Vec<SyncKey>)
        requires
            old(self).wf(),
        ensures
            final(self).wf(),
            final(self).view() == old(self).view().union(
                keys@.map_values(|k: SyncKey| k.key_view()).to_set(),
            ),
    {
        let ghost start = self.view();
        let ghost all = keys@.map_values(|k: SyncKey| k.key_view());
        let rest = keys;
        let ghost full = rest@;
        let mut k: usize = 0;
        let n = rest.len();
        while k < n
            invariant
                k <= n,
                n == full.len(),
                self.wf(),
                all == full.map_values(|k: SyncKey| k.key_view()),
                self.view() == start.union(all.take(k as int).to_set()),
                rest@ == full,
            decreases n - k,
        {
            let key = rest[k].as_key();
            proof {
                assert(key@ == all[k as int]);
                assert(all.take(k + 1) =~= all.take(k as int).push(all[k as int]));
                all.take(k as int).lemma_push_to_set_commute(all[k as int]);
                assert(start.union(all.take(k + 1).to_set()) =~= start.union(
                    all.take(k as int).to_set(),
                ).insert(all[k as int]));
            }
            self.insert_key(key);
            k = k + 1;
        }
        proof {
            assert(all.take(n as int) =~= all);
        }
    }

    /// Number of tracked entries.
    pub fn len(&self) -> (res: usize)
        requires
            self.wf(),
        ensures
            res == self.view().len(),
            self.view().finite(),
    {
        proof {
            self.lemma_len();
        }
        self.synced.len()
    }

    pub fn is_empty(&self) -> (res: bool)
        requires
            self.wf(),
        ensures
            res == (self.view().len() == 0),
    {
        proof {
            self.lemma_len();
        }
        self.synced.len() == 0
    }

    /// The raw key strings, each once, in the order they were first recorded.
    pub fn keys(&self) -> (res: Vec<String>)
        requires
            self.wf(),
        ensures
            res@.map_values(|s: String| s@) == self.entries(),
            res@.map_values(|s: String| s@).to_set() == self.view(),
            res@.map_values(|s: String| s@).no_duplicates(),
    {
        let res = self.synced.clone();
        proof {
            assert(res@.map_values(|s: String| s@) =~= self.entries());
        }
        res
    }

    /// Remove all entries for a given direction (the `--force` reset).
    pub fn clear_direction(&mut self, direction: &Direction)
        requires
            old(self).wf(),
        ensures
            final(self).wf(),
            final(self).view() == old(self).view().filter(
                |k: Seq<char>| !starts_with(k, direction_prefix(*direction)),
            ),
    {
        let mut prefix = String::new();
        prefix.append(direction.as_str());
        prefix.append("|");
        let pchars = chars_of(prefix.as_str());
        let ghost p = direction_prefix(*direction);
        let ghost before = self.entries();
        let mut kept: Vec<String> = Vec::new();
        let mut i: usize = 0;
        while i < self.synced.len()
            invariant
                i <= self.synced.len(),
                pchars@ == p,
                before == self.entries(),
                before.no_duplicates(),
                kept@.map_values(|s: String| s@) == before.take(i as int).filter(
                    |k: Seq<char>| !starts_with(k, p),
                ),
            decreases self.synced.len() - i,
        {
            let keep = !has_prefix(&chars_of(self.synced[i].as_str()), &pchars);
            let ghost kv = before[i as int];
            proof {
                assert(before.take(i + 1) =~= before.take(i as int).push(kv));
                before.take(i as int).lemma_filter_push(kv, |k: Seq<char>| !starts_with(k, p));
            }
            if keep {
                let ghost old_kept = kept@.map_values(|s: String| s@);
                kept.push(self.synced[i].clone());
                proof {
                    assert(kept@.map_values(|s: String| s@) =~= old_kept.push(kv));
                }
            }
            i = i + 1;
        }
        proof {
            assert(before.take(before.len() as int) =~= before);
            let f = before.filter(|k: Seq<char>| !starts_with(k, p));
            lemma_filter_no_duplicates(before, |k: Seq<char>| !starts_with(k, p));
            assert forall|k: Seq<char>| #[trigger]
                f.to_set().contains(k) == before.to_set().filter(
                    |k: Seq<char>| !starts_with(k, p),
                ).contains(k) by {
                if f.contains(k) {
                    before.lemma_filter_contains_rev(|k: Seq<char>| !starts_with(k, p), k);
                }
                if before.contains(k) && !starts_with(k, p) {
                    let j = choose|j: int| 0 <= j < before.len() && before[j] == k;
                    before.lemma_filter_contains(|k: Seq<char>| !starts_with(k, p), j);
                }
            }
            assert(f.to_set() =~= before.to_set().filter(|k: Seq<char>| !starts_with(k, p)));
        }
        self.synced = kept;
    }
}

proof fn lemma_filter_no_duplicates(s: Seq<Seq<char>>, pred: spec_fn(Seq<char>) -> bool)
    requires
        s.no_duplicates(),
    ensures
        s.filter(pred).no_duplicates(),
    decreases s.len(),
{
    broadcast use vstd::seq_lib::group_seq_properties;

    if s.len() > 0 {
        let init = s.drop_last();
        assert(init.no_duplicates());
        lemma_filter_no_duplicates(init, pred);
        assert(s =~= init.push(s.last()));
        init.lemma_filter_push(s.last(), pred);
        if pred(s.last()) {
            let f = init.filter(pred);
            assert(!init.contains(s.last()));
            assert(!f.contains(s.last())) by {
                if f.contains(s.last()) {
                    init.lemma_filter_contains_rev(pred, s.last());
                }
            }
            assert forall|a: int, b: int|
                0 <= a < f.push(s.last()).len() && 0 <= b < f.push(s.last()).len() && a != b
                implies f.push(s.last())[a] != f.push(s.last())[b] by {
                if a == f.len() {
                    assert(f.contains(f.push(s.last())[b]));
                } else if b == f.len() {
                    assert(f.contains(f.push(s.last())[a]));
                }
            }
        }
    }
}

/// Whether `p` is a prefix of `s`.
fn has_prefix(s: &Vec<char>, p: &Vec<char>) -> (res: bool)
    ensures
        res == starts_with(s@, p@),
{
    if p.len() > s.len() {
        return false;
    }
    let mut i: usize = 0;
    while i < p.len()
        invariant
            i <= p.len() <= s.len(),
            forall|j: int| 0 <= j < i ==> s@[j] == p@[j],
        decreases p.len() - i,
    {
        if s[i] != p[i] {
            proof {
                assert(s@.take(p@.len() as int)[i as int] != p@[i as int]);
            }
            return false;
        }
        i = i + 1;
    }
    proof {
        assert(s@.take(p@.len() as int) =~= p@);
    }
    true
}

// ---------------------------------------------------------------------------
// Laws
// ---------------------------------------------------------------------------

/// Keys of the two directions never collide: the same item synced in both
/// directions is tracked independently.
pub proof fn law_directions_tracked_independently(a: SyncKey, b: SyncKey)
    requires
        a.direction != b.direction,
    ensures
        a.key_view() != b.key_view(),
{
    reveal_strlit("L2T");
    reveal_strlit("T2L");
    assert(a.key_view()[0] == a.direction.tag()[0]);
    assert(b.key_view()[0] == b.direction.tag()[0]);
}

/// A key by TMDB id and a key by title and year never collide, whatever the
/// title, year, id or date.
pub proof fn law_tmdb_and_title_keys_distinct(a: SyncKey, b: SyncKey)
    requires
        a.item_ref is Tmdb,
        b.item_ref is TitleYear,
    ensures
        a.key_view() != b.key_view(),
{
    reveal_strlit("L2T");
    reveal_strlit("T2L");
    reveal_strlit("watched");
    reveal_strlit("rating");
    reveal_strlit("watchlist");
    reveal_strlit("review");
    reveal_strlit("|");
    reveal_strlit("tmdb:");
    reveal_strlit("title:");
    if a.direction == b.direction && a.item_type == b.item_type {
        let n: int = (a.direction.tag() + "|"@ + a.item_type.tag() + "|"@).len() as int;
        assert(a.key_view()[n + 1] == 'm');
        assert(b.key_view()[n + 1] == 'i');
    } else if a.direction != b.direction {
        law_directions_tracked_independently(a, b);
    } else {
        let n: int = (a.direction.tag() + "|"@).len() as int;
        lemma_type_tags_differ(a.item_type, b.item_type);
        let i = choose|i: int|
            0 <= i < a.item_type.tag().len() && i < b.item_type.tag().len()
                && a.item_type.tag()[i] != b.item_type.tag()[i];
        assert(a.key_view()[n + i] == a.item_type.tag()[i]);
        assert(b.key_view()[n + i] == b.item_type.tag()[i]);
    }
}

proof fn lemma_type_tags_differ(x: ItemType, y: ItemType)
    requires
        x != y,
    ensures
        exists|i: int|
            0 <= i < x.tag().len() && i < y.tag().len() && x.tag()[i] != y.tag()[i],
{
    reveal_strlit("watched");
    reveal_strlit("rating");
    reveal_strlit("watchlist");
    reveal_strlit("review");
    match (x, y) {
        (ItemType::Watched, ItemType::Watchlist) | (ItemType::Watchlist, ItemType::Watched) => {
            assert(x.tag()[5] != y.tag()[5]);
        },
        (ItemType::Rating, ItemType::Review) | (ItemType::Review, ItemType::Rating) => {
            assert(x.tag()[1] != y.tag()[1]);
        },
        _ => {
            assert(x.tag()[0] != y.tag()[0]);
        },
    }
}

/// Recording a key makes the store contain it, and recording it again
/// changes nothing.
pub proof fn law_mark_is_idempotent(state: Set<Seq<char>>, key: SyncKey)
    ensures
        state.insert(key.key_view()).contains(key.key_view()),
        state.insert(key.key_view()).insert(key.key_view()) == state.insert(key.key_view()),
{
    assert(state.insert(key.key_view()).insert(key.key_view()) =~= state.insert(key.key_view()));
}

/// Every key is recorded under its own direction's prefix.
pub proof fn law_key_carries_direction_prefix(key: SyncKey)
    ensures
        starts_with(key.key_view(), direction_prefix(key.direction)),
{
    assert(key.key_view().take(direction_prefix(key.direction).len() as int) =~= direction_prefix(
        key.direction,
    ));
}

/// Clearing one direction forgets every key of that direction and keeps
/// every key of the other direction.
pub proof fn law_clear_direction_is_exact(state: Set<Seq<char>>, cleared: Direction, key: SyncKey)
    ensures
        ({
            let after = state.filter(
                |k: Seq<char>| !starts_with(k, direction_prefix(cleared)),
            );
            &&& key.direction == cleared ==> !after.contains(key.key_view())
            &&& key.direction != cleared ==> (after.contains(key.key_view()) == state.contains(
                key.key_view(),
            ))
        }),
{
    law_key_carries_direction_prefix(key);
    reveal_strlit("L2T");
    reveal_strlit("T2L");
    if key.direction != cleared {
        let p = direction_prefix(cleared);
        assert(p[0] != key.key_view()[0]);
        assert(!starts_with(key.key_view(), p)) by {
            if starts_with(key.key_view(), p) {
                assert(key.key_view().take(p.len() as int)[0] == p[0]);
            }
        }
    }
}

} // verus!
