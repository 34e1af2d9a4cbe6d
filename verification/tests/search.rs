//! How a query finds text: as a subsequence, case set aside, spaces dropped.

use marks_client::search::{find, stretches};

/// What `query` matched in `text`, written out as the characters themselves.
fn matched(text: &str, query: &str) -> Option<String> {
    let found = find(text, query)?;

    Some(picked(text, &found.indices))
}

/// The characters at `offsets`, as they would be shown.
fn picked(text: &str, offsets: &[usize]) -> String {
    offsets
        .iter()
        .map(|at| text[*at..].chars().next().unwrap())
        .collect()
}

#[test]
fn a_query_broken_into_words_finds_a_name_written_as_one() {
    assert_eq!(matched("youtube.com", "you ube").as_deref(), Some("youube"));
    assert_eq!(matched("youtube.com", "youube").as_deref(), Some("youube"));
    assert_eq!(matched("youtube.com", "ytb").as_deref(), Some("ytb"));
}

#[test]
fn the_characters_have_to_come_in_the_order_they_were_typed() {
    assert_eq!(matched("youtube.com", "ube you"), None);
    assert_eq!(matched("youtube.com", "euy"), None);
    assert_eq!(matched("youtube.com", "youtube.com/watch"), None);
    assert_eq!(matched("buy milk", "youtube"), None);
}

#[test]
fn case_is_not_something_the_reader_has_to_remember() {
    assert_eq!(matched("YouTube", "you ube").as_deref(), Some("Youube"));
    assert_eq!(matched("youtube.com", "YOU UBE").as_deref(), Some("youube"));
    assert_eq!(matched("Café Zürich", "zür").as_deref(), Some("Zür"));
}

#[test]
fn a_space_in_the_query_is_not_something_to_find() {
    assert_eq!(matched("Café Zürich", "fé Zü").as_deref(), Some("féZü"));
    assert_eq!(find("a b", " ").map(|found| found.indices), Some(Vec::new()));
}

#[test]
fn an_accent_is_a_letter_of_its_own() {
    assert!(find("Ünïcödé Ñämé", "unicode").is_none());
    assert_eq!(matched("Ünïcödé Ñämé", "nïcöd").as_deref(), Some("nïcöd"));
}

#[test]
fn the_offsets_are_where_the_characters_are() {
    let text = "Café Zürich";
    let found = find(text, "fé Zü").expect("a match");

    assert_eq!(picked(text, &found.indices), "féZü");

    for at in found.indices {
        assert!(text.is_char_boundary(at), "{at} is not a character boundary");
    }
}

#[test]
fn a_query_with_nothing_in_it_matches_and_picks_nothing_out() {
    for query in ["", "   ", "\t"] {
        assert_eq!(find("youtube.com", query).map(|found| found.indices), Some(Vec::new()));
        assert_eq!(matched("youtube.com", query).as_deref(), Some(""));
    }
}

#[test]
fn text_that_is_empty_is_matched_by_nothing_but_an_empty_query() {
    assert_eq!(find("", "").map(|found| found.indices), Some(Vec::new()));
    assert!(find("", "anything").is_none());
}

#[test]
fn a_name_that_begins_with_the_query_scores_over_the_same_letters_scattered_through_a_link() {
    let name = find("YouTube", "you").expect("the name matches").score;
    let link = find(
        "https://www.svt.se/nyheter/inrikes/jimmie-akessons-oro-muslimer-kan-avgora-valet",
        "you",
    )
    .expect("the link matches")
    .score;

    assert!(
        name > link,
        "the name scored {name} and the scattered link {link}"
    );
}

#[test]
fn every_character_of_a_match_is_a_character_of_the_query() {
    let cases = [
        ("youtube.com", "you ube"),
        ("https://github.com/emilk/egui", "github egui"),
        ("Café Zürich", "café"),
        ("Ünïcödé Ñämé", "Ñämé"),
    ];

    for (text, query) in cases {
        let picked = matched(text, query).unwrap_or_else(|| panic!("{query:?} did not find {text:?}"));
        let asked: String = query.chars().filter(|c| !c.is_whitespace()).collect();

        assert_eq!(
            picked.to_lowercase(),
            asked.to_lowercase(),
            "{query:?} in {text:?}"
        );
    }
}

/// The stretches of a line as text and whether they are lit.
fn runs(text: &str, query: &str) -> Vec<(String, bool)> {
    stretches(text, query)
        .into_iter()
        .map(|stretch| (text[stretch.start..stretch.end].to_owned(), stretch.lit))
        .collect()
}

#[test]
fn the_characters_a_query_matched_are_the_ones_picked_out() {
    // Each run of matched characters is one stretch, and so is each run of the rest.
    assert_eq!(
        runs("youtube.com", "you ube"),
        [
            ("you".to_owned(), true),
            ("t".to_owned(), false),
            ("ube".to_owned(), true),
            (".com".to_owned(), false)
        ]
    );
}

#[test]
fn a_row_with_no_match_in_it_is_drawn_as_it_always_was() {
    for query in ["", "   ", "nothing here"] {
        assert_eq!(
            runs("https://youtube.com/", query),
            [("https://youtube.com/".to_owned(), false)]
        );
    }
}

#[test]
fn stretches_cover_a_line_of_many_byte_characters_end_to_end() {
    let text = "Café Zürich";
    let cut = stretches(text, "fé Zü");

    assert_eq!(cut.first().map(|s| s.start), Some(0));
    assert_eq!(cut.last().map(|s| s.end), Some(text.len()));
    for pair in cut.windows(2) {
        assert_eq!(pair[0].end, pair[1].start);
        assert_ne!(pair[0].lit, pair[1].lit);
    }
    assert_eq!(
        runs(text, "fé Zü"),
        [
            ("Ca".to_owned(), false),
            ("fé".to_owned(), true),
            (" ".to_owned(), false),
            ("Zü".to_owned(), true),
            ("rich".to_owned(), false)
        ]
    );
}

#[test]
fn an_empty_line_has_no_stretches() {
    assert!(stretches("", "").is_empty());
}

#[test]
fn a_match_gives_one_rising_offset_for_each_character_of_the_query() {
    let text = "Ça va, Hacker News";
    let found = find(text, "h N").expect("a match");
    assert_eq!(found.indices.len(), 2);
    assert!(found.indices[0] < found.indices[1]);
    assert!(picked(text, &found.indices).eq_ignore_ascii_case("hn"));
}

#[test]
fn a_match_far_into_a_long_text_is_shown_on_characters_that_match() {
    let text = format!("a{}b", "x".repeat(40_000));
    let found = find(&text, "ab").expect("a match");
    assert_eq!(found.indices.len(), 2);
    assert!(found.indices[0] < found.indices[1]);
    assert_eq!(picked(&text, &found.indices), "ab");
    assert_eq!(found.indices, vec![0, 40_001]);
}
