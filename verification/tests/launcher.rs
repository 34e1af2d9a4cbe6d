//! Which marks a query keeps and in what order, what a typed line is saved as, and the hints.

use marks_client::launcher::{
    filter_marks, hints, instance_address, mark_name, named_after, score, selected_mark,
    server_to_start_from, shorten, starting_session, stored_content, HINT_CHARS, MAX_NAME_CHARS,
};
use marks_client::session_file::to_keep;
use marks_client::mark::{web_link, Mark};

/// A mark as the server sends it, for the tests that only need a list to filter.
fn mark(name: &str, content: &str) -> Mark {
    Mark {
        id: name.to_lowercase(),
        name: name.to_owned(),
        content: content.to_owned(),
        icon_id: None,
    }
}

fn names(marks: &[&Mark]) -> Vec<String> {
    marks.iter().map(|mark| mark.name.clone()).collect()
}

#[test]
fn the_mark_that_answers_the_query_best_comes_first() {
    let marks = vec![
        mark(
            "Jimmie Åkessons oro: Muslimer kan avgöra valet | SVT Nyheter",
            "https://www.svt.se/nyheter/inrikes/jimmie-akessons-oro-muslimer-kan-avgora-valet",
        ),
        mark("YouTube", "https://youtube.com/"),
    ];

    assert_eq!(
        names(&filter_marks(&marks, "you")),
        [
            "YouTube",
            "Jimmie Åkessons oro: Muslimer kan avgöra valet | SVT Nyheter"
        ]
    );

    assert_eq!(
        selected_mark(&marks, "you", 0).map(|mark| mark.name.as_str()),
        Some("YouTube")
    );
}

#[test]
fn marks_the_query_answers_equally_well_keep_the_servers_order() {
    let marks = vec![
        mark("alpha", "https://a.example/"),
        mark("beta", "https://b.example/"),
        mark("gamma", "https://c.example/"),
    ];

    for query in ["", "   "] {
        assert_eq!(
            names(&filter_marks(&marks, query)),
            ["alpha", "beta", "gamma"]
        );
    }
}

#[test]
fn a_mark_is_ranked_by_whichever_of_its_two_lines_answers_better() {
    let marks = vec![
        mark("x", "https://github.com/emilk/egui"),
        mark("zeta", "https://example.com/"),
    ];

    assert_eq!(
        names(&filter_marks(&marks, "github")),
        ["x"],
        "found by its link"
    );
}

#[test]
fn a_query_broken_into_words_still_finds_the_mark() {
    let marks = vec![
        mark("youtube.com", "https://youtube.com/"),
        mark("Svelte", "https://svelte.dev/docs/kit"),
    ];

    assert_eq!(names(&filter_marks(&marks, "you ube")), ["youtube.com"]);
    assert_eq!(names(&filter_marks(&marks, "youtube")), ["youtube.com"]);
    assert_eq!(names(&filter_marks(&marks, "ytb")), ["youtube.com"]);
    assert_eq!(names(&filter_marks(&marks, "SVELTE.DEV")), ["Svelte"]);
    assert_eq!(names(&filter_marks(&marks, "kit")), ["Svelte"]);

    assert!(filter_marks(&marks, "nothing here").is_empty());
    assert!(filter_marks(&marks, "ube you").is_empty(), "order matters");
}

#[test]
fn the_query_keeps_the_marks_it_matches() {
    let marks = vec![
        mark("GitHub", "https://github.com/emilk/egui"),
        mark("Svelte", "https://svelte.dev/docs/kit"),
    ];

    assert_eq!(names(&filter_marks(&marks, "")), ["GitHub", "Svelte"]);
    assert_eq!(names(&filter_marks(&marks, "hub")), ["GitHub"]);
    assert_eq!(names(&filter_marks(&marks, "SVELTE.DEV")), ["Svelte"]);
    assert!(filter_marks(&marks, "nothing here").is_empty());
}

#[test]
fn a_hint_repeats_the_query_until_it_is_too_long() {
    assert_eq!(shorten("example.com", HINT_CHARS), "example.com");
    assert_eq!(shorten("exactly-ten", 11), "exactly-ten");

    let cut = shorten(&"x".repeat(100), 10);
    assert_eq!(cut.chars().count(), 11);
    assert!(cut.ends_with('…'));
}

#[test]
fn a_typed_link_is_stored_as_one_and_named_after_its_host() {
    assert_eq!(stored_content("example.com"), "https://example.com/");
    assert_eq!(mark_name("https://example.com/some/page"), "example.com");

    assert_eq!(stored_content("buy milk"), "buy milk");
    assert_eq!(mark_name("buy milk"), "buy milk");
    assert!(web_link("buy milk").is_none());
}

#[test]
fn a_note_is_named_after_its_text_and_is_never_fetched() {
    let content = "buy milk";

    assert_eq!(named_after(None, mark_name(content)), "buy milk");
}

#[test]
fn a_link_that_cannot_be_reached_keeps_its_host_name() {
    let content = "http://127.0.0.1:1/";

    assert_eq!(named_after(None, mark_name(content)), "127.0.0.1");
}

#[test]
fn a_link_is_named_after_the_title_of_the_page_it_points_at() {
    let content = "http://127.0.0.1:8080/";

    assert_eq!(mark_name(content), "127.0.0.1");
    assert_eq!(
        named_after(Some("Local Test Page".to_owned()), mark_name(content)),
        "Local Test Page"
    );
}

#[test]
fn a_title_longer_than_the_server_accepts_is_cut_to_fit() {
    let long = "t".repeat(MAX_NAME_CHARS + 50);

    let name = named_after(Some(long.clone()), mark_name("http://127.0.0.1/"));

    assert_eq!(name.chars().count(), MAX_NAME_CHARS);
    assert!(long.starts_with(&name));
}

#[test]
fn a_mark_scores_what_the_better_of_its_lines_scores() {
    let youtube = mark("YouTube", "https://www.svt.se/nyheter/inrikes/jimmie-akessons-oro");
    let by_name = marks_client::search::find("YouTube", "you").unwrap().score;

    assert_eq!(score(&youtube, "you"), Some(by_name));
    assert_eq!(score(&youtube, ""), Some(0));
    assert_eq!(score(&youtube, "zzz"), None);
}

#[test]
fn the_selection_points_at_nothing_past_the_end_of_the_list() {
    let marks = vec![mark("GitHub", "https://github.com/"), mark("Svelte", "https://svelte.dev/")];

    assert_eq!(selected_mark(&marks, "", 1).map(|m| m.name.as_str()), Some("Svelte"));
    assert!(selected_mark(&marks, "", 2).is_none());
    assert!(selected_mark(&marks, "hub", 1).is_none());
}

#[test]
fn hints_are_set_apart_by_bullets() {
    assert_eq!(hints(&["Esc close"]), "Esc close");
    assert_eq!(hints(&["Enter open", "Esc close"]), "Enter open • Esc close");
    assert_eq!(hints(&[]), "");
}

#[test]
fn the_server_named_outright_wins_over_the_one_kept() {
    assert_eq!(
        server_to_start_from(Some("https://a.example".to_owned()), Some("https://b.example")),
        "https://a.example"
    );
    assert_eq!(server_to_start_from(None, Some("https://b.example")), "https://b.example");
    assert_eq!(server_to_start_from(None, None), "");
}

#[test]
fn a_typed_address_is_taken_as_the_client_uses_it() {
    assert_eq!(instance_address("  marks.example.com/ ").as_deref(), Ok("http://marks.example.com"));
    assert_eq!(
        instance_address("https://marks.example.com:8443/").as_deref(),
        Ok("https://marks.example.com:8443")
    );
    assert_eq!(
        instance_address("   ").unwrap_err(),
        "Which server? Type its address."
    );
    assert_eq!(
        instance_address("ftp://files.example.com").unwrap_err(),
        "ftp://files.example.com is not a server address."
    );
}

/// `named`, `handed` and a session kept for `kept_for`, as a run would start from them.
fn start(named: Option<&str>, handed: Option<&str>, kept: Option<(&str, &str)>) -> (String, Option<String>) {
    starting_session(
        named.map(str::to_owned),
        handed.map(str::to_owned),
        kept.map(|(base_url, token)| to_keep(base_url, token)),
    )
}

#[test]
fn a_server_and_token_handed_in_win_over_the_session_kept() {
    assert_eq!(
        start(Some("  https://a.example// "), Some(" handed \n"), Some(("https://a.example", "kept"))),
        ("https://a.example".to_owned(), Some("handed".to_owned()))
    );
}

#[test]
fn a_token_handed_in_without_a_server_is_of_no_use() {
    assert_eq!(
        start(None, Some("handed"), Some(("https://b.example", "kept"))),
        ("https://b.example".to_owned(), Some("kept".to_owned()))
    );
    assert_eq!(start(None, Some("handed"), None), (String::new(), None));
}

#[test]
fn a_named_server_starts_with_the_session_kept_for_it() {
    assert_eq!(
        start(Some("https://a.example"), None, Some(("https://a.example", "kept"))),
        ("https://a.example".to_owned(), Some("kept".to_owned()))
    );
    assert_eq!(
        start(Some("https://a.example"), Some("   "), Some(("https://b.example", "kept"))),
        ("https://a.example".to_owned(), None)
    );
}

#[test]
fn a_named_server_of_nothing_but_blanks_and_slashes_names_none() {
    assert_eq!(
        start(Some(" // "), Some("handed"), Some(("https://b.example", "kept"))),
        ("https://b.example".to_owned(), Some("kept".to_owned()))
    );
    assert_eq!(start(None, None, None), (String::new(), None));
}
