//! Trakt notes: a review becomes a private note on the film, and the notes
//! already on the account are read back film by film.
use vstd::prelude::*;
use std::collections::HashMap;
use crate::text::{decimal, decimal_string, owned};
use crate::trakt_read::{following_page, next_page};
use crate::trakt_write::MovieId;

verus! {

broadcast use vstd::std_specs::hash::group_hash_axioms;

#[derive(Debug)]
pub enum CreateNoteResult {
    Created,
    OverLimit,
}

/// `unexpected HTTP {status} from POST /notes`
pub open spec fn note_error_text(status: u16) -> Seq<char> {
    "unexpected HTTP "@ + decimal(status as nat) + " from POST /notes"@
}

/// What the reply to `POST /notes` means: 201 is a new note; 402 and 422
/// say the account holds all the notes it may; any other status is an error.
pub fn note_reply(status: u16) -> (res: Result<CreateNoteResult, String>)
    ensures
        status == 201 ==> res matches Ok(CreateNoteResult::Created),
        (status == 402 || status == 422) ==> res matches Ok(CreateNoteResult::OverLimit),
        (status != 201 && status != 402 && status != 422) ==> (res matches Err(m) && m@
            == note_error_text(status)),
{
    if status == 201 {
        Ok(CreateNoteResult::Created)
    } else if status == 402 || status == 422 {
        Ok(CreateNoteResult::OverLimit)
    } else {
        let mut m = String::new();
        m.append("unexpected HTTP ");
        m.append(decimal_string(status as u64).as_str());
        m.append(" from POST /notes");
        proof {
            reveal_strlit("unexpected HTTP ");
            reveal_strlit(" from POST /notes");
        }
        Err(m)
    }
}

/// The body of `POST /notes`: the note text, its privacy, what it is
/// attached to, and the ids of the film.
pub struct NoteBody {
    pub note: String,
    pub privacy: String,
    pub attached_to: String,
    pub ids: MovieId,
}

/// The note for a review: the review text, kept private, attached to the
/// film with the ids given (an id that is `None` is left out of the body).
pub fn note_body(text: &str, ids: MovieId) -> (res: NoteBody)
    ensures
        res.note@ == text@,
        res.privacy@ == "private"@,
        res.attached_to@ == "movie"@,
        res.ids == ids,
{
    NoteBody { note: owned(text), privacy: owned("private"), attached_to: owned("movie"), ids }
}

/// What to do with one page of the user's notes.
pub enum NotesStep {
    /// The page could not be had or read: end with the notes gathered so far.
    Stop,
    /// Take in the page's notes, then read this page next, if any.
    Take(Option<u32>),
}

/// Decides what follows a page of notes, from its status, whether its body
/// parsed, and the page count it reported. Reading notes is best-effort: a
/// page that fails ends the read and keeps what earlier pages gave; a good
/// page is taken in and the pages follow one another up to the count.
pub fn notes_read_step(status: u16, parsed: bool, page: u32, page_count: u32) -> (res: NotesStep)
    ensures
        (status != 200 || !parsed) ==> res is Stop,
        (status == 200 && parsed) ==> res == NotesStep::Take(following_page(page, page_count)),
{
    if status != 200 || !parsed {
        NotesStep::Stop
    } else {
        NotesStep::Take(next_page(page, page_count))
    }
}

/// `{base_url}/notes`
pub fn notes_url(base_url: &str) -> (res: String)
    ensures
        res@ == base_url@ + "/notes"@,
{
    let mut out = String::new();
    out.append(base_url);
    out.append("/notes");
    out
}

/// `{base_url}/users/me/notes/movies?page={page}&limit=100`
pub open spec fn notes_page_url_text(base_url: Seq<char>, page: u32) -> Seq<char> {
    base_url + "/users/me/notes/movies?page="@ + decimal(page as nat) + "&limit=100"@
}

pub fn notes_page_url(base_url: &str, page: u32) -> (res: String)
    ensures
        res@ == notes_page_url_text(base_url@, page),
{
    let mut out = String::new();
    out.append(base_url);
    out.append("/users/me/notes/movies?page=");
    out.append(decimal_string(page as u64).as_str());
    out.append("&limit=100");
    out
}

/// The notes map after taking in `entries` (film TMDB id, note text), in
/// order: a film's first note is kept, later ones and notes on films
/// without a TMDB id are passed over.
pub open spec fn with_notes(notes: Map<u64, String>, entries: Seq<(Option<u64>, String)>) -> Map<
    u64,
    String,
>
    decreases entries.len(),
{
    if entries.len() == 0 {
        notes
    } else {
        let before = with_notes(notes, entries.drop_last());
        match entries.last().0 {
            Some(id) => if before.contains_key(id) {
                before
            } else {
                before.insert(id, entries.last().1)
            },
            None => before,
        }
    }
}

/// Takes in one page of notes, keeping the first note of each film.
pub fn add_notes(notes: &mut HashMap<u64, String>, entries: Vec<(Option<u64>, String)>)
    ensures
        final(notes)@ == with_notes(old(notes)@, entries@),
{
    let ghost start = notes@;
    let mut k: usize = 0;
    while k < entries.len()
        invariant
            k <= entries.len(),
            notes@ == with_notes(start, entries@.take(k as int)),
        decreases entries.len() - k,
    {
        proof {
            assert(entries@.take(k + 1).drop_last() =~= entries@.take(k as int));
        }
        match entries[k].0 {
            Some(id) => {
                if !notes.contains_key(&id) {
                    notes.insert(id, entries[k].1.clone());
                }
            },
            None => {},
        }
        k = k + 1;
    }
    proof {
        assert(entries@.take(entries.len() as int) =~= entries@);
    }
}

/// A film's first note wins: once a film has a note in the map, no later
/// page changes it.
pub proof fn law_first_note_wins(
    notes: Map<u64, String>,
    entries: Seq<(Option<u64>, String)>,
    id: u64,
)
    requires
        notes.contains_key(id),
    ensures
        with_notes(notes, entries).contains_key(id),
        with_notes(notes, entries)[id] == notes[id],
    decreases entries.len(),
{
    if entries.len() > 0 {
        law_first_note_wins(notes, entries.drop_last(), id);
    }
}

} // verus!
