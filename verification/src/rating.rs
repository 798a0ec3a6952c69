//! Rating scales: Trakt rates 1–10 in whole numbers, Letterboxd 0.5–5 in
//! half stars, so a Trakt rating is twice the Letterboxd one.
use vstd::prelude::*;
use crate::text::{decimal, decimal_string};

verus! {

/// The Letterboxd rating for a Trakt rating, written with one decimal place
/// (`8` → `4.0`, `9` → `4.5`): half the Trakt value.
pub open spec fn letterboxd_rating_text(trakt: u8) -> Seq<char> {
    decimal((trakt / 2) as nat) + seq!['.', if trakt % 2 == 1 { '5' } else { '0' }]
}

/// Half a Trakt rating, as Letterboxd's import expects it (one decimal place).
pub fn trakt_rating_text(trakt: u8) -> (res: String)
    ensures
        res@ == letterboxd_rating_text(trakt),
{
    let mut out = decimal_string((trakt / 2) as u64);
    if trakt % 2 == 1 {
        out.append(".5");
    } else {
        out.append(".0");
    }
    proof {
        reveal_strlit(".5");
        reveal_strlit(".0");
        assert(out@ =~= letterboxd_rating_text(trakt));
    }
    out
}

/// Every Trakt rating text, read back as half stars, gives the Trakt rating:
/// the digits before the point are half the rating, and the digit after it
/// is 5 exactly for odd ratings.
pub proof fn law_rating_text_round_trips(trakt: u8)
    ensures
        ({
            let t = letterboxd_rating_text(trakt);
            let whole = t.take(t.len() - 2);
            &&& whole == decimal((trakt / 2) as nat)
            &&& t[t.len() - 2] == '.'
            &&& 2 * (trakt / 2) + (if t[t.len() - 1] == '5' { 1int } else { 0int }) == trakt
        }),
{
    let t = letterboxd_rating_text(trakt);
    assert(t.take(t.len() - 2) =~= decimal((trakt / 2) as nat));
}

} // verus!
