//! The window's state as things happen to it: sessions, the list, the dialogs, the settings.

use marks_client::api::{failure, ApiError};
use marks_client::app::{
    edit_finished, fonts_to_add, AuthMode, EditRequest, Effect, Event, KeyScope, Keys, MarksApp, PanelOutcome,
    Pending, ADD_LIMIT,
};
use marks_client::config::{Config, MAX_SIDE, MIN_WIDTH};
use marks_client::fonts::default_priority;
use marks_client::mark::Mark;

fn mark(id: &str, name: &str, content: &str) -> Mark {
    Mark {
        id: id.to_owned(),
        name: name.to_owned(),
        content: content.to_owned(),
        icon_id: None,
    }
}

fn window(base_url: &str, token: Option<&str>) -> (MarksApp, Vec<Effect>) {
    MarksApp::new(base_url.to_owned(), token.map(str::to_owned), Config::default())
}

/// A window signed in to a server, holding `marks`.
fn signed_in_with(marks: Vec<Mark>) -> MarksApp {
    let (mut app, _) = window("http://127.0.0.1:5173", Some("token-1"));
    app.on_event(Event::Marks(marks));
    app
}

fn names(app: &MarksApp) -> Vec<&str> {
    app.marks.iter().map(|m| m.name.as_str()).collect()
}

fn no_keys() -> Keys {
    Keys {
        save: false,
        edit: false,
        open: false,
        up: false,
        down: false,
        remove: false,
        config: false,
        close: false,
    }
}

fn no_outcome() -> PanelOutcome {
    PanelOutcome {
        log_out: false,
        added: None,
        removed: None,
        moved: None,
        fixed_size: None,
        keep: false,
        apply: false,
    }
}

#[test]
fn a_session_the_server_refuses_puts_the_sign_in_dialog_back_up() {
    let (mut app, effects) = window("http://127.0.0.1:5173", Some("expired"));

    // The window opens signed in: a session was handed to it, so the dialog is down...
    assert!(app.session.is_some(), "the session was not taken up");
    assert!(app.auth.error.is_none());
    // ...and the first thing it does is ask for the marks,
    assert!(matches!(effects.as_slice(), [Effect::Begin]));

    // which the server refuses.
    let refused = failure(401, Some("Unauthorized".to_owned()));
    assert!(matches!(refused, Some(ApiError::Unauthorized)));
    let effect = app.on_event(Event::SessionLost);

    assert!(app.session.is_none(), "a refused session left the window signed in");
    assert_eq!(
        app.auth.error.as_deref(),
        Some("That session is no longer valid - sign in again.")
    );
    assert!(app.auth.focus_first_field, "the caret belongs in the first field");
    assert_eq!(app.auth.base_url, "http://127.0.0.1:5173");

    // And nothing the refused session had is left on screen, and its token is forgotten.
    assert!(app.marks.is_empty());
    assert!(app.username.is_none());
    match effect {
        Some(Effect::EndSession { base_url, token }) => {
            assert_eq!(base_url, "http://127.0.0.1:5173");
            assert_eq!(token.as_deref(), Some("expired"));
        }
        _ => panic!("the session was not ended"),
    }
}

#[test]
fn a_window_with_no_session_asks_the_server_for_nothing() {
    let (app, effects) = window("http://127.0.0.1:5173", None);

    assert!(app.session.is_none());
    assert!(effects.is_empty());
    assert!(app.auth.focus_first_field);
    assert_eq!(app.auth.base_url, "http://127.0.0.1:5173");
    assert_eq!(app.empty_message(), "Sign in to load your marks.");
    assert_eq!(app.key_scope(), KeyScope::SignIn);
}

#[test]
fn a_token_with_no_server_beside_it_is_no_session() {
    let (app, effects) = window("", Some("token"));

    assert!(app.session.is_none());
    assert!(effects.is_empty());
}

#[test]
fn settings_naming_a_font_of_this_machine_ask_for_the_machine_s_fonts() {
    let mut config = Config::default();
    config.fonts.priority.push("DejaVu Sans".to_owned());

    let (mut app, effects) =
        MarksApp::new("http://127.0.0.1:5173".to_owned(), Some("t".to_owned()), config);

    assert!(matches!(effects.as_slice(), [Effect::LoadSystemFonts, Effect::Begin]));
    assert!(app.loading_fonts);
    assert!(app.ensure_system_fonts().is_none(), "asked for twice");

    let effect = app.on_event(Event::SystemFonts(vec!["DejaVu Sans".to_owned()]));
    assert!(matches!(effect, Some(Effect::InstallFonts)));
    assert!(!app.loading_fonts);
}

#[test]
fn signing_in_takes_the_session_up_for_the_server_that_answered() {
    let (mut app, _) = window("", None);
    app.auth.busy = true;

    let effect = app.on_event(Event::SignedIn {
        username: "otto".to_owned(),
        base_url: "https://marks.example.com".to_owned(),
        token: Some("abc".to_owned()),
    });

    assert!(matches!(effect, Some(Effect::Begin)));
    assert_eq!(app.base_url, "https://marks.example.com");
    assert_eq!(app.username.as_deref(), Some("otto"));
    assert_eq!(app.session.as_ref().and_then(|s| s.token.as_deref()), Some("abc"));
    assert!(!app.auth.busy);
    assert!(app.auth.base_url.is_empty());
    assert_eq!(app.key_scope(), KeyScope::Launcher);
}

#[test]
fn a_refused_sign_in_says_why_and_frees_the_form() {
    let (mut app, _) = window("", None);
    app.auth.busy = true;
    app.auth.focus_first_field = false;

    app.on_event(Event::SignInFailed("Incorrect username or password".to_owned()));

    assert!(!app.auth.busy);
    assert_eq!(app.auth.error.as_deref(), Some("Incorrect username or password"));
    assert!(app.auth.focus_first_field);
}

#[test]
fn credentials_go_to_the_address_as_the_client_uses_it() {
    let (mut app, _) = window("", None);

    assert!(app.authenticate(AuthMode::Login).is_none());
    assert_eq!(app.auth.error.as_deref(), Some("A username and a password are both needed."));

    app.auth.username = "  otto ".to_owned();
    app.auth.password = "secret".to_owned();
    assert!(app.authenticate(AuthMode::Login).is_none());
    assert_eq!(app.auth.error.as_deref(), Some("Which server? Type its address."));

    app.auth.base_url = "marks.example.com/".to_owned();
    match app.authenticate(AuthMode::Signup) {
        Some(Effect::SignIn { mode, base_url, username, password }) => {
            assert!(mode == AuthMode::Signup);
            assert_eq!(base_url, "http://marks.example.com");
            assert_eq!(username, "otto");
            assert_eq!(password, "secret");
        }
        _ => panic!("nothing was sent"),
    }
    assert!(app.auth.busy);
    assert_eq!(app.auth.base_url, "http://marks.example.com");
    assert!(app.auth.error.is_none());
}

#[test]
fn enter_signs_in_unless_a_sign_in_is_in_flight() {
    let (mut app, _) = window("", None);

    assert_eq!(app.modal_keys(true, false), (false, Some(AuthMode::Login)));
    assert_eq!(app.modal_keys(false, true), (true, None));
    app.auth.busy = true;
    assert_eq!(app.modal_keys(true, false), (false, None));
}

#[test]
fn the_selection_stops_at_either_end_of_the_list() {
    let mut app = signed_in_with(vec![
        mark("1", "alpha", "https://a.example/"),
        mark("2", "beta", "https://b.example/"),
        mark("3", "gamma", "https://c.example/"),
    ]);

    app.move_selection(-1);
    assert_eq!(app.selected, 0);
    app.move_selection(1);
    app.move_selection(1);
    app.move_selection(1);
    assert_eq!(app.selected, 2);
    app.move_selection(isize::MAX);
    assert_eq!(app.selected, 2);
    app.move_selection(isize::MIN);
    assert_eq!(app.selected, 0);

    // A query that leaves fewer rows pulls the selection back inside them.
    app.selected = 2;
    app.query = "beta".to_owned();
    app.clamp_selection();
    assert_eq!(app.selected, 0);
    assert_eq!(app.listed_count(), 1);
}

#[test]
fn the_arrow_keys_move_the_selection_and_escape_closes_the_window() {
    let mut app = signed_in_with(vec![
        mark("1", "alpha", "https://a.example/"),
        mark("2", "beta", "https://b.example/"),
    ]);

    let effects = app.launcher_keys(Keys { down: true, ..no_keys() });
    assert!(effects.is_empty());
    assert_eq!(app.selected, 1);

    let effects = app.launcher_keys(Keys { close: true, down: true, ..no_keys() });
    assert!(matches!(effects.as_slice(), [Effect::Close]));
    assert_eq!(app.selected, 1);

    let effects = app.launcher_keys(Keys { config: true, up: true, ..no_keys() });
    assert!(effects.is_empty());
    assert!(app.config_open);
    assert_eq!(app.selected, 1);
    assert_eq!(app.key_scope(), KeyScope::Panel);

    app.config_keys(false, true);
    assert!(!app.config_open);
}

#[test]
fn enter_opens_a_link_and_says_a_note_is_not_one() {
    let mut app = signed_in_with(vec![
        mark("1", "buy milk", "buy milk"),
        mark("2", "GitHub", "github.com"),
    ]);

    let effects = app.launcher_keys(Keys { open: true, ..no_keys() });
    assert!(effects.is_empty());
    let notice = app.notice.as_ref().expect("a notice");
    assert!(notice.error);
    assert_eq!(notice.text, "\"buy milk\" is not a link.");

    app.selected = 1;
    match app.open_selected() {
        Some(Effect::OpenUrl { url }) => assert_eq!(url, "https://github.com/"),
        _ => panic!("the link was not opened"),
    }
}

#[test]
fn ctrl_enter_saves_what_is_typed() {
    let mut app = signed_in_with(Vec::new());

    app.query = "   ".to_owned();
    assert!(app.save_query().is_none());
    assert_eq!(
        app.notice.as_ref().map(|n| n.text.as_str()),
        Some("Type a link or a note to save first.")
    );

    app.query = "  example.com  ".to_owned();
    let hint = app.save_hint().expect("a hint while something is typed");
    assert_eq!(hint, "Ctrl+Enter  save \"example.com\" as a new mark");

    match app.save_query() {
        Some(Effect::CreateMark { content, fallback }) => {
            assert_eq!(content, "https://example.com/");
            assert_eq!(fallback, "example.com");
        }
        _ => panic!("nothing was saved"),
    }
    assert_eq!(
        app.notice.as_ref().map(|n| (n.text.as_str(), n.error)),
        Some(("Saving \"example.com\"...", false))
    );
}

#[test]
fn the_ctrl_enter_hint_is_only_there_when_there_is_something_to_save() {
    let (mut app, _) = window("http://localhost:5173", None);

    assert_eq!(app.save_hint(), None);

    app.query = "  example.com  ".to_owned();
    let hint = app.save_hint().expect("a hint while something is typed");
    assert!(hint.contains("Ctrl+Enter"), "{hint}");
    assert!(hint.contains("example.com"), "{hint}");
}

#[test]
fn a_saved_mark_is_filed_by_name_and_selected() {
    let mut app = signed_in_with(vec![
        mark("1", "alpha", "https://a.example/"),
        mark("2", "Gamma", "https://c.example/"),
    ]);
    app.query = "example.com".to_owned();

    app.on_event(Event::Created(mark("3", "Beta", "https://example.com/")));

    assert_eq!(names(&app), ["alpha", "Beta", "Gamma"]);
    assert!(app.query.is_empty(), "the search box did its job");
    assert_eq!(app.selected, 1);
    assert_eq!(
        app.notice.as_ref().map(|n| (n.text.as_str(), n.error)),
        Some(("Saved \"Beta\".", false))
    );
}

#[test]
fn a_renamed_mark_moves_to_where_its_new_name_belongs() {
    let mut app = signed_in_with(vec![
        mark("1", "alpha", "https://a.example/"),
        mark("2", "beta", "https://b.example/"),
        mark("3", "gamma", "https://c.example/"),
    ]);
    app.edit_selected();
    assert_eq!(app.edit.as_ref().map(|e| e.mark_id.as_str()), Some("1"));

    app.on_event(Event::Updated(mark("1", "zeta", "https://a.example/")));

    assert_eq!(names(&app), ["beta", "gamma", "zeta"]);
    assert_eq!(app.selected, 2);
    assert!(app.edit.is_none());
    assert_eq!(app.marks.len(), 3);
}

#[test]
fn names_equal_but_for_case_keep_the_order_they_came_in() {
    let mut app = signed_in_with(vec![
        mark("1", "Same", "https://a.example/"),
        mark("2", "same", "https://b.example/"),
    ]);

    app.settle_mark(mark("3", "SAME", "https://c.example/"));

    let ids: Vec<&str> = app.marks.iter().map(|m| m.id.as_str()).collect();
    assert_eq!(ids, ["1", "2", "3"]);
    assert_eq!(app.selected, 2);
}

#[test]
fn a_mark_is_deleted_only_once_the_question_is_answered_yes() {
    let mut app = signed_in_with(vec![
        mark("1", "alpha", "https://a.example/"),
        mark("2", "beta", "https://b.example/"),
    ]);
    app.selected = 1;

    let effects = app.launcher_keys(Keys { remove: true, ..no_keys() });
    assert!(effects.is_empty(), "nothing is sent before the question is answered");
    let asked = app.confirmation.as_ref().expect("a question");
    assert_eq!(asked.question, "Delete \"beta\"?");
    assert_eq!(asked.confirm, "Delete");
    assert!(matches!(&asked.action, Pending::Delete { mark_id, .. } if mark_id == "2"));
    assert_eq!(app.key_scope(), KeyScope::Dialog);

    // No is the end of it.
    assert!(app.answer(false).is_none());
    assert!(app.confirmation.is_none());

    app.ask_to_delete();
    match app.answer(true) {
        Some(Effect::DeleteMark { mark_id, name }) => {
            assert_eq!(mark_id, "2");
            assert_eq!(name, "beta");
        }
        _ => panic!("the deletion was not asked for"),
    }

    let effect = app.on_event(Event::Deleted {
        mark_id: "2".to_owned(),
        name: "beta".to_owned(),
    });
    assert!(matches!(effect, Some(Effect::ForgetIcon { mark_id }) if mark_id == "2"));
    assert_eq!(names(&app), ["alpha"]);
    assert_eq!(app.selected, 0);
    assert_eq!(
        app.notice.as_ref().map(|n| n.text.as_str()),
        Some("Deleted \"beta\".")
    );
}

#[test]
fn a_change_needs_a_name_and_something_in_it() {
    let mut app = signed_in_with(vec![mark("1", "alpha", "https://a.example/")]);

    assert!(app.save_edit().is_none(), "no dialog, nothing to save");

    app.edit_selected();
    {
        let edit = app.edit.as_mut().expect("a dialog");
        assert!(edit.focus_name);
        edit.name = "   ".to_owned();
    }
    assert!(app.edit_request(EditRequest::Save).is_none());
    assert_eq!(
        app.edit.as_ref().and_then(|e| e.error.as_deref()),
        Some("A mark needs a name and something in it.")
    );

    app.edit.as_mut().unwrap().name = format!("  {}  ", "n".repeat(250));
    match app.save_edit() {
        Some(Effect::UpdateMark { mark_id, name, content }) => {
            assert_eq!(mark_id, "1");
            assert_eq!(name.chars().count(), 200);
            assert_eq!(content, "https://a.example/");
        }
        _ => panic!("the change was not sent"),
    }
    assert!(app.edit.as_ref().unwrap().busy);
    assert_eq!(app.edit_keys(true, false), None, "a change in flight is not sent twice");
    assert_eq!(app.edit_keys(false, true), Some(EditRequest::Cancel));

    app.on_event(Event::UpdateFailed("Refused".to_owned()));
    let edit = app.edit.as_ref().unwrap();
    assert!(!edit.busy);
    assert_eq!(edit.error.as_deref(), Some("Refused"));

    app.edit_request(EditRequest::Cancel);
    assert!(app.edit.is_none());
}

#[test]
fn failures_are_said_on_the_status_line() {
    let mut app = signed_in_with(Vec::new());

    app.on_event(Event::MarksFailed("Could not reach the server".to_owned()));
    assert_eq!(
        app.notice.as_ref().map(|n| (n.text.as_str(), n.error)),
        Some(("Could not reach the server", true))
    );
    app.on_event(Event::CreateFailed("Too long".to_owned()));
    assert_eq!(app.notice.as_ref().map(|n| n.text.as_str()), Some("Too long"));
    app.on_event(Event::DeleteFailed("Gone".to_owned()));
    assert_eq!(app.notice.as_ref().map(|n| n.text.as_str()), Some("Gone"));

    app.query = "x".to_owned();
    assert_eq!(
        app.empty_message(),
        "Nothing matches. Ctrl+Enter saves what you typed as a new mark."
    );
    app.query = " ".to_owned();
    assert_eq!(
        app.empty_message(),
        "No marks yet - type a link and press Ctrl+Enter to save the first one."
    );
}

#[test]
fn logging_out_forgets_the_session_and_keeps_the_address() {
    let mut app = signed_in_with(vec![mark("1", "alpha", "https://a.example/")]);
    app.config_open = true;

    let effect = app.apply_panel(PanelOutcome {
        log_out: true,
        added: Some("Hack".to_owned()),
        ..no_outcome()
    });

    assert!(matches!(effect, Some(Effect::EndSession { token: Some(t), .. }) if t == "token-1"));
    assert!(app.session.is_none());
    assert!(!app.config_open);
    assert!(app.auth.error.is_none(), "a logout is not worth explaining");
    assert_eq!(app.auth.base_url, "http://127.0.0.1:5173");
    assert!(app.marks.is_empty());
}

#[test]
fn moving_a_font_up_the_order_puts_it_first_and_writes_it_down() {
    let mut app = signed_in_with(Vec::new());

    let effect = app.move_font(1, -1);

    assert!(matches!(effect, Some(Effect::SaveFonts)));
    assert_eq!(
        app.config.fonts.priority,
        ["Ubuntu-Light", "Hack", "NotoEmoji-Regular", "emoji-icon-font"]
    );
}

#[test]
fn a_font_cannot_be_moved_off_either_end_of_the_order() {
    let mut app = signed_in_with(Vec::new());

    assert!(app.move_font(0, -1).is_none());
    assert!(app.move_font(3, 1).is_none());
    assert_eq!(app.config.fonts.priority, default_priority());
}

#[test]
fn a_move_from_past_the_end_of_the_order_to_past_it_moves_nothing() {
    let mut app = signed_in_with(Vec::new());

    assert!(app.move_font(5, 1).is_none());
    assert!(app.move_font(9, -2).is_none());
    assert_eq!(app.config.fonts.priority, default_priority());
}

#[test]
fn the_last_font_cannot_be_taken_out() {
    let mut app = signed_in_with(Vec::new());

    for _ in 0..3 {
        assert!(matches!(app.remove_font(0), Some(Effect::SaveFonts)));
    }
    assert_eq!(app.config.fonts.priority, ["emoji-icon-font"]);
    assert!(app.remove_font(0).is_none());
    assert!(app.remove_font(5).is_none());
}

#[test]
fn only_a_font_the_window_can_find_is_added() {
    let mut app = signed_in_with(Vec::new());
    app.remove_font(0);

    assert!(app.add_font("Comic Sans").is_none(), "not a font anyone has");
    assert!(app.add_font("Ubuntu-Light").is_none(), "already in the order");
    assert!(matches!(app.add_font("Hack"), Some(Effect::SaveFonts)));
    assert_eq!(app.config.fonts.priority.last().map(String::as_str), Some("Hack"));

    app.on_event(Event::SystemFonts(vec!["Comic Sans".to_owned()]));
    assert!(matches!(
        app.apply_panel(PanelOutcome { added: Some("Comic Sans".to_owned()), ..no_outcome() }),
        Some(Effect::SaveFonts)
    ));
    assert_eq!(app.config.fonts.priority.len(), 5);
}

#[test]
fn a_fixed_size_is_applied_to_the_window_and_written_down() {
    let mut app = signed_in_with(Vec::new());

    let effect = app.apply_panel(PanelOutcome { fixed_size: Some(true), ..no_outcome() });

    assert!(matches!(effect, Some(Effect::SaveWindow)));
    assert!(app.config.window.fixed_size);
    assert!(app.window_settings_changed);
}

#[test]
fn a_size_no_window_could_be_is_brought_within_reach_and_written_down() {
    let mut app = signed_in_with(Vec::new());
    app.config.window.width = 3;
    app.config.window.height = 999_999;

    let effect = app.apply_panel(PanelOutcome { apply: true, ..no_outcome() });
    assert!(matches!(effect, Some(Effect::ApplyWindow)));
    assert!(!app.window_settings_changed, "nothing written while the size moves");
    assert_eq!((app.config.window.width, app.config.window.height), (MIN_WIDTH, MAX_SIDE));

    let effect = app.apply_panel(PanelOutcome { keep: true, apply: true, ..no_outcome() });
    assert!(matches!(effect, Some(Effect::SaveWindow)));
    assert!(app.window_settings_changed);

    assert!(app.apply_panel(no_outcome()).is_none());
}

#[test]
fn the_panel_offers_the_fonts_not_yet_in_the_order_best_answer_first() {
    let system = vec!["Cantarell".to_owned(), "DejaVu Sans".to_owned()];
    let priority = vec!["Hack".to_owned(), "NotoEmoji-Regular".to_owned()];

    let (shown, answered) = fonts_to_add("", &system, &priority);
    assert_eq!(shown, ["Ubuntu-Light", "emoji-icon-font", "Cantarell", "DejaVu Sans"]);
    assert_eq!(answered, 4);

    let (shown, answered) = fonts_to_add("dejavu", &system, &priority);
    assert_eq!(shown, ["DejaVu Sans"]);
    assert_eq!(answered, 1);

    let many: Vec<String> = (0..100).map(|i| format!("Family {i}")).collect();
    let (shown, answered) = fonts_to_add("family", &many, &priority);
    assert_eq!(shown.len(), ADD_LIMIT);
    assert_eq!(answered, 100);
}

#[test]
fn the_footer_names_the_keys_that_work() {
    let (app, _) = window("", None);
    let footer = app.footer();
    assert_eq!(footer.keys, "Esc close");
    assert!(footer.save.is_none() && footer.signed_in_as.is_none());

    let mut app = signed_in_with(Vec::new());
    app.username = Some("otto".to_owned());
    app.query = "example.com".to_owned();
    let footer = app.footer();
    assert_eq!(
        footer.keys,
        "↑↓ move • Enter open • Ctrl+E change • Ctrl+D delete • Ctrl+, settings • Esc close"
    );
    assert_eq!(footer.signed_in_as.as_deref(), Some("signed in as otto"));
    assert_eq!(
        footer.save.as_deref(),
        Some("Ctrl+Enter  save \"example.com\" as a new mark")
    );
}

#[test]
fn a_size_edit_is_over_when_the_drag_or_the_typing_is() {
    assert!(edit_finished(true, false, false, false), "a drag that stopped");
    assert!(edit_finished(false, true, false, false), "a field that lost the keyboard");
    assert!(edit_finished(false, false, true, false), "a value typed or stepped");
    assert!(!edit_finished(false, false, true, true), "a value still being dragged");
    assert!(!edit_finished(false, false, false, false));
}

#[test]
fn the_caret_starts_at_the_first_field_that_still_needs_filling_in() {
    let (mut app, _) = window("", None);
    assert!(app.auth.caret_in_server());

    app.auth.base_url = "  ".to_owned();
    assert!(app.auth.caret_in_server());

    app.auth.base_url = "https://marks.example.com".to_owned();
    assert!(!app.auth.caret_in_server());
}

#[test]
fn ctrl_comma_opens_the_configuration_panel_and_ctrl_comma_closes_it() {
    let mut app = signed_in_with(Vec::new());

    app.launcher_keys(Keys { config: true, ..no_keys() });
    assert!(app.config_open);

    app.config_keys(true, false);
    assert!(!app.config_open);
}

#[test]
fn escape_closes_the_configuration_panel_rather_than_the_window() {
    let mut app = signed_in_with(Vec::new());
    app.launcher_keys(Keys { config: true, ..no_keys() });

    // While the panel is up, its keys are read rather than the launcher's.
    assert_eq!(app.key_scope(), KeyScope::Panel);
    app.config_keys(false, true);

    assert!(!app.config_open);
    assert_eq!(app.key_scope(), KeyScope::Launcher);
}

#[test]
fn the_panel_leaves_the_launcher_keys_alone_while_it_is_up() {
    let mut app = signed_in_with(vec![
        mark("1", "alpha", "https://a.example/"),
        mark("2", "beta", "https://b.example/"),
    ]);
    app.config_open = true;

    // The frame reads the panel's keys, not the launcher's, so the arrows move nothing.
    assert_eq!(app.key_scope(), KeyScope::Panel);
    assert_eq!(app.selected, 0);
}

#[test]
fn a_settings_file_that_says_nothing_leaves_the_window_as_it_was() {
    let config = Config::load_from(None, std::path::PathBuf::from("/tmp/marks-client/config.toml"));
    let (app, effects) =
        MarksApp::new("http://127.0.0.1:5173".to_owned(), None, config);

    assert!(effects.is_empty());
    assert!(!app.config.window.fixed_size);
    assert_eq!((app.config.window.width, app.config.window.height), (620, 440));
    assert_eq!(app.config.fonts.priority, default_priority());
}
