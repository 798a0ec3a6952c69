use std::cell::RefCell;
use std::collections::VecDeque;

use trakt_letterboxd::matching::{
    percent_encode_query, resolve_films, search_reply_check, search_url, select_search_match,
    ResolvedFilm, ResolvedIds, SearchCandidate, UnmatchedFilm,
};

/// Canned Trakt search replies, handed out in order, as the search that
/// `resolve_films` is given sees them.
struct MockSearch {
    responses: RefCell<VecDeque<(u16, String)>>,
    urls: RefCell<Vec<String>>,
}

impl MockSearch {
    fn new(responses: Vec<(u16, &str)>) -> Self {
        MockSearch {
            responses: RefCell::new(
                responses
                    .into_iter()
                    .map(|(s, b)| (s, b.to_string()))
                    .collect(),
            ),
            urls: RefCell::new(Vec::new()),
        }
    }

    fn search(&self, title: String, year: u32) -> Result<Option<ResolvedIds>, String> {
        self.urls
            .borrow_mut()
            .push(search_url("https://api.trakt.tv", &title, year));
        let (status, body) = self
            .responses
            .borrow_mut()
            .pop_front()
            .ok_or_else(|| "no more mock responses".to_string())?;
        search_reply_check(status)?;
        let candidates = parse_candidates(&body)?;
        Ok(select_search_match(&candidates, &title, year))
    }
}

fn parse_candidates(body: &str) -> Result<Vec<SearchCandidate>, String> {
    let v: serde_json::Value =
        serde_json::from_str(body).map_err(|e| format!("failed to parse search results: {e}"))?;
    let mut out = Vec::new();
    for r in v.as_array().cloned().unwrap_or_default() {
        let m = &r["movie"];
        let ids = &m["ids"];
        out.push(SearchCandidate {
            title: m["title"].as_str().unwrap_or("").to_string(),
            year: m["year"].as_u64().map(|y| y as u32),
            ids: ResolvedIds {
                trakt_id: ids["trakt"].as_u64(),
                tmdb_id: ids["tmdb"].as_u64(),
                imdb_id: ids["imdb"].as_str().map(|s| s.to_string()),
                slug: ids["slug"].as_str().map(|s| s.to_string()),
            },
        });
    }
    Ok(out)
}

fn one_result(title: &str, year: u32, trakt: u64, tmdb: u64, imdb: &str) -> String {
    format!(
        r#"[{{"type":"movie","score":1000.0,"movie":{{"title":"{title}","year":{year},"ids":{{"trakt":{trakt},"slug":"slug","imdb":"{imdb}","tmdb":{tmdb}}}}}}}]"#
    )
}

fn run(
    client: &MockSearch,
    films: &[(String, u32)],
) -> Result<(Vec<ResolvedFilm>, Vec<UnmatchedFilm>), String> {
    resolve_films(|t, y| client.search(t, y), films.to_vec())
}

#[test]
fn resolve_films_separates_matched_and_unmatched() {
    let matrix_json = one_result("The Matrix", 1999, 481, 603, "tt0133093");
    // Second film: no results in first pass or adjacent-year passes.
    let client = MockSearch::new(vec![
        (200, &matrix_json), // pass 1: The Matrix → match
        (200, "[]"),         // pass 1: Ghost Film XYZ → no match
        (200, "[]"),         // pass 2: Ghost Film XYZ year-1 (2049) → no match
        (200, "[]"),         // pass 2: Ghost Film XYZ year+1 (2051) → no match
    ]);
    let films = vec![
        ("The Matrix".to_string(), 1999u32),
        ("Ghost Film XYZ".to_string(), 2050u32),
    ];
    let (matched, unmatched) = run(&client, &films).unwrap();
    assert_eq!(matched.len(), 1);
    assert_eq!(matched[0].title, "The Matrix");
    assert_eq!(matched[0].ids.tmdb_id, Some(603));
    assert_eq!(unmatched.len(), 1);
    assert_eq!(unmatched[0].title, "Ghost Film XYZ");
    assert!(!unmatched[0].reason.is_empty());
}

#[test]
fn resolve_films_empty_input() {
    let client = MockSearch::new(vec![]);
    let (matched, unmatched) = run(&client, &[]).unwrap();
    assert!(matched.is_empty());
    assert!(unmatched.is_empty());
}

#[test]
fn percent_encode_query_leaves_unreserved_chars() {
    assert_eq!(
        percent_encode_query("TheMatrix1999-._~"),
        "TheMatrix1999-._~"
    );
}

#[test]
fn percent_encode_query_encodes_space_and_ampersand() {
    assert_eq!(percent_encode_query("Tom & Jerry"), "Tom%20%26%20Jerry");
}

#[test]
fn resolve_films_mixed_batch_count_preserved() {
    // Three films: 2 match, 1 doesn't. matched.len() + unmatched.len() must
    // equal input length — no films lost or duplicated.
    let matrix_json = one_result("The Matrix", 1999, 481, 603, "tt0133093");
    let inception_json = one_result("Inception", 2010, 123, 27205, "tt1375666");
    let client = MockSearch::new(vec![
        (200, &matrix_json),    // pass 1: The Matrix → match
        (200, "[]"),            // pass 1: Ghost Film XYZ → no match
        (200, &inception_json), // pass 1: Inception → match
        (200, "[]"),            // pass 2: Ghost Film XYZ year-1 (2049) → no match
        (200, "[]"),            // pass 2: Ghost Film XYZ year+1 (2051) → no match
    ]);
    let films = vec![
        ("The Matrix".to_string(), 1999u32),
        ("Ghost Film XYZ".to_string(), 2050u32),
        ("Inception".to_string(), 2010u32),
    ];
    let (matched, unmatched) = run(&client, &films).unwrap();
    assert_eq!(
        matched.len() + unmatched.len(),
        films.len(),
        "no films lost or duplicated"
    );
    assert_eq!(matched.len(), 2);
    assert_eq!(unmatched.len(), 1);
    assert_eq!(unmatched[0].title, "Ghost Film XYZ");
}

#[test]
fn empty_title_goes_to_unmatched_without_panic() {
    // Makes an API call with an empty query param; no adjacent-year hits either.
    let client = MockSearch::new(vec![(200, "[]"), (200, "[]"), (200, "[]")]);
    let films = vec![("".to_string(), 2000u32)];
    let (matched, unmatched) = run(&client, &films).unwrap();
    assert!(matched.is_empty());
    assert_eq!(unmatched.len(), 1);
}

#[test]
fn whitespace_only_title_goes_to_unmatched_without_panic() {
    // Spaces are encoded (%20) but yield no exact title match or adjacent-year hit.
    let client = MockSearch::new(vec![(200, "[]"), (200, "[]"), (200, "[]")]);
    let films = vec![("   ".to_string(), 2000u32)];
    let (matched, unmatched) = run(&client, &films).unwrap();
    assert!(matched.is_empty());
    assert_eq!(unmatched.len(), 1);
}

#[test]
fn duplicate_input_films_both_resolve_independently() {
    // Two identical (title, year) entries are looked up with separate API
    // calls and both resolve — no silent dedup. Count in == count out.
    let json1 = one_result("The Matrix", 1999, 481, 603, "tt0133093");
    let json2 = one_result("The Matrix", 1999, 481, 603, "tt0133093");
    let client = MockSearch::new(vec![(200, &json1), (200, &json2)]);
    let films = vec![
        ("The Matrix".to_string(), 1999u32),
        ("The Matrix".to_string(), 1999u32),
    ];
    let (matched, unmatched) = run(&client, &films).unwrap();
    assert_eq!(
        matched.len() + unmatched.len(),
        films.len(),
        "count in must equal count out"
    );
    assert_eq!(
        matched.len(),
        2,
        "duplicates each resolve independently — no silent dedup"
    );
    assert!(unmatched.is_empty());
}

#[test]
fn resolve_films_year_minus_one_falls_back_to_near_match() {
    // LB says 2018; Trakt has it under 2017 (festival premiere year).
    let hit_json = one_result("Some Film", 2017, 1, 999, "tt0000001");
    let client = MockSearch::new(vec![
        (200, "[]"),      // pass 1: years=2018 → no match
        (200, &hit_json), // pass 2: years=2017 → match
    ]);
    let films = vec![("Some Film".to_string(), 2018u32)];
    let (matched, unmatched) = run(&client, &films).unwrap();
    assert_eq!(matched.len(), 1, "near-year film must be matched");
    assert!(
        unmatched.is_empty(),
        "matched film must not appear in unmatched"
    );
    assert_eq!(matched[0].ids.tmdb_id, Some(999));
    assert!(
        matched[0].year_tolerance_warning.is_some(),
        "near-year match must carry a warning"
    );
    let warn = matched[0].year_tolerance_warning.as_deref().unwrap();
    assert!(
        warn.contains("2017") && warn.contains("2018"),
        "warning must mention both years: {warn}"
    );
}

#[test]
fn resolve_films_year_plus_one_falls_back_to_near_match() {
    // LB says 2017; Trakt has it under 2018 (wide-release year).
    let hit_json = one_result("Some Film", 2018, 2, 888, "tt0000002");
    let client = MockSearch::new(vec![
        (200, "[]"),      // pass 1: years=2017 → no match
        (200, "[]"),      // pass 2: years=2016 → no match
        (200, &hit_json), // pass 2: years=2018 → match
    ]);
    let films = vec![("Some Film".to_string(), 2017u32)];
    let (matched, unmatched) = run(&client, &films).unwrap();
    assert_eq!(matched.len(), 1, "near-year film must be matched");
    assert!(unmatched.is_empty());
    assert_eq!(matched[0].ids.tmdb_id, Some(888));
    assert!(matched[0].year_tolerance_warning.is_some());
    let warn = matched[0].year_tolerance_warning.as_deref().unwrap();
    assert!(
        warn.contains("2018") && warn.contains("2017"),
        "warning must mention both years: {warn}"
    );
}

#[test]
fn resolve_films_year_tolerance_different_title_no_false_match() {
    // "Original Film" (2018): exact pass fails. Adjacent-year passes return
    // "Sequel Film" at year 2017 and 2019 — different title, must NOT match.
    let sequel_2017 = one_result("Sequel Film", 2017, 10, 100, "tt0000010");
    let sequel_2019 = one_result("Sequel Film", 2019, 11, 101, "tt0000011");
    let client = MockSearch::new(vec![
        (200, "[]"),         // pass 1: years=2018 → no match
        (200, &sequel_2017), // pass 2: years=2017 → wrong title, no match
        (200, &sequel_2019), // pass 2: years=2019 → wrong title, no match
    ]);
    let films = vec![("Original Film".to_string(), 2018u32)];
    let (matched, unmatched) = run(&client, &films).unwrap();
    assert!(
        matched.is_empty(),
        "different-title adjacent-year must NOT match"
    );
    assert_eq!(unmatched.len(), 1, "must land in unmatched");
    assert_eq!(unmatched[0].title, "Original Film");
}

#[test]
fn resolve_films_exact_match_has_no_warning() {
    // An exact-year match must never carry a year_tolerance_warning.
    let json = one_result("The Matrix", 1999, 481, 603, "tt0133093");
    let client = MockSearch::new(vec![(200, &json)]);
    let films = vec![("The Matrix".to_string(), 1999u32)];
    let (matched, _) = run(&client, &films).unwrap();
    assert_eq!(matched.len(), 1);
    assert!(
        matched[0].year_tolerance_warning.is_none(),
        "exact-year match must not carry a warning"
    );
}

// The search behind `resolve_films`, one reply at a time.

#[test]
fn exact_title_year_match_returns_correct_ids() {
    let json = one_result("The Matrix", 1999, 481, 603, "tt0133093");
    let client = MockSearch::new(vec![(200, &json)]);
    let ids = client
        .search("The Matrix".to_string(), 1999)
        .unwrap()
        .expect("should match");
    assert_eq!(ids.tmdb_id, Some(603));
    assert_eq!(ids.trakt_id, Some(481));
    assert_eq!(ids.imdb_id.as_deref(), Some("tt0133093"));
}

#[test]
fn multiple_results_picks_exact_title_year() {
    let json = r#"[
        {"type":"movie","score":900.0,"movie":{"title":"The Matrix Reloaded","year":2003,"ids":{"trakt":482,"slug":"s","imdb":"tt0234215","tmdb":604}}},
        {"type":"movie","score":1000.0,"movie":{"title":"The Matrix","year":1999,"ids":{"trakt":481,"slug":"s","imdb":"tt0133093","tmdb":603}}}
    ]"#;
    let client = MockSearch::new(vec![(200, json)]);
    let ids = client
        .search("The Matrix".to_string(), 1999)
        .unwrap()
        .expect("should match");
    assert_eq!(
        ids.tmdb_id,
        Some(603),
        "must pick The Matrix, not The Matrix Reloaded"
    );
}

#[test]
fn no_results_returns_none() {
    let client = MockSearch::new(vec![(200, "[]")]);
    let result = client.search("Nonexistent Film XYZ".to_string(), 2099).unwrap();
    assert!(result.is_none());
}

#[test]
fn results_with_no_exact_match_returns_none() {
    let json = r#"[{"type":"movie","score":500.0,"movie":{"title":"The Matrix Revolutions","year":1999,"ids":{"trakt":483,"slug":"s","imdb":"tt0242653","tmdb":605}}}]"#;
    let client = MockSearch::new(vec![(200, json)]);
    let result = client.search("The Matrix".to_string(), 1999).unwrap();
    assert!(
        result.is_none(),
        "non-exact title match should not be accepted"
    );
}

#[test]
fn url_encodes_ampersand_in_title() {
    let json = r#"[{"type":"movie","score":1000.0,"movie":{"title":"Tom & Jerry","year":1992,"ids":{"trakt":1,"slug":"s","imdb":"tt0123","tmdb":999}}}]"#;
    let client = MockSearch::new(vec![(200, json)]);
    let ids = client
        .search("Tom & Jerry".to_string(), 1992)
        .unwrap()
        .expect("should match");
    assert_eq!(ids.tmdb_id, Some(999));
    let url = client.urls.borrow().last().cloned().unwrap();
    assert!(
        url.contains("%26"),
        "& must be percent-encoded in the URL, got: {url}"
    );
    assert!(
        !url.contains("Tom & Jerry"),
        "raw & must not appear in query value, got: {url}"
    );
}

#[test]
fn url_encodes_accented_title() {
    let json = r#"[{"type":"movie","score":1000.0,"movie":{"title":"Amélie","year":2001,"ids":{"trakt":123,"slug":"s","imdb":"tt0211915","tmdb":194}}}]"#;
    let client = MockSearch::new(vec![(200, json)]);
    let ids = client
        .search("Amélie".to_string(), 2001)
        .unwrap()
        .expect("should match accented title");
    assert_eq!(ids.tmdb_id, Some(194));
    let url = client.urls.borrow().last().cloned().unwrap();
    assert!(
        url.contains("%C3%A9"),
        "é must be percent-encoded as %C3%A9, got: {url}"
    );
}

#[test]
fn non_200_response_returns_error() {
    let client = MockSearch::new(vec![(500, r#"{"error":"server error"}"#)]);
    let err = client.search("Anything".to_string(), 2000).unwrap_err();
    assert!(err.contains("500"), "error must include status code: {err}");
}

#[test]
fn year_off_by_one_goes_to_unmatched() {
    let json = r#"[{"type":"movie","score":1000.0,"movie":{"title":"Some Film","year":2001,"ids":{"trakt":1,"slug":"s","imdb":"tt0000001","tmdb":1}}}]"#;
    let client = MockSearch::new(vec![(200, json)]);
    let result = client.search("Some Film".to_string(), 2000).unwrap();
    assert!(
        result.is_none(),
        "off-by-one year must not match — exact year is required"
    );
}

#[test]
fn url_encodes_apostrophe_in_title() {
    let json = one_result("Schindler's List", 1993, 77, 424, "tt0108052");
    let client = MockSearch::new(vec![(200, &json)]);
    let ids = client
        .search("Schindler's List".to_string(), 1993)
        .unwrap()
        .expect("should match title containing apostrophe");
    assert_eq!(ids.tmdb_id, Some(424));
    let url = client.urls.borrow().last().cloned().unwrap();
    assert!(
        url.contains("%27"),
        "apostrophe must be percent-encoded as %27, got: {url}"
    );
}

#[test]
fn url_encodes_colon_in_title() {
    let json = one_result("Amélie: A Story", 2001, 123, 194, "tt0211915");
    let client = MockSearch::new(vec![(200, &json)]);
    let ids = client
        .search("Amélie: A Story".to_string(), 2001)
        .unwrap()
        .expect("should match title containing colon and accented char");
    assert_eq!(ids.tmdb_id, Some(194));
    let url = client.urls.borrow().last().cloned().unwrap();
    assert!(
        url.contains("%3A"),
        "colon must be percent-encoded as %3A, got: {url}"
    );
}

#[test]
fn search_error_ends_resolution_with_that_error() {
    let client = MockSearch::new(vec![(503, "")]);
    let films = vec![("The Matrix".to_string(), 1999u32)];
    let err = run(&client, &films).unwrap_err();
    assert_eq!(err, "Trakt search failed: HTTP 503");
}

#[test]
fn near_year_warning_names_both_years() {
    let hit_json = one_result("Some Film", 2017, 1, 999, "tt0000001");
    let client = MockSearch::new(vec![(200, "[]"), (200, &hit_json)]);
    let films = vec![("Some Film".to_string(), 2018u32)];
    let (matched, _) = run(&client, &films).unwrap();
    assert_eq!(
        matched[0].year_tolerance_warning.as_deref(),
        Some("'Some Film' (year 2018) matched Trakt year 2017 — verify this is the same film")
    );
}

#[test]
fn year_zero_skips_the_year_below() {
    // Year 0 has no year−1 search: the second query is already year 1.
    let client = MockSearch::new(vec![(200, "[]"), (200, "[]")]);
    let films = vec![("Old Film".to_string(), 0u32)];
    let (matched, unmatched) = run(&client, &films).unwrap();
    assert!(matched.is_empty());
    assert_eq!(unmatched.len(), 1);
    let urls = client.urls.borrow();
    assert_eq!(urls.len(), 2);
    assert!(urls[1].ends_with("&years=1"), "got {}", urls[1]);
}
