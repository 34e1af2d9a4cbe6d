//! The window's state, and how it moves from one thing that happens to the next.
//!
//! [`MarksApp`] holds everything on screen: the marks, the search box, the settings, the session,
//! and the dialogs in front of the list. It draws nothing and waits on nothing. A key pressed, a
//! dialog answered or an answer from the server arrives as a call here, the state moves, and what
//! the window has to do about it (ask the server, open a page, write the settings down) comes
//! back as an [`Effect`] for the program around it to carry out. What comes back from that work
//! arrives later as an [`Event`].
//!
//! The keyboard is the interface, a launcher having one field and no buttons to hunt for:
//! Ctrl+Enter saves what is typed, Enter opens the selected mark, Ctrl+E changes it, Ctrl+D asks to
//! delete it, Ctrl+, opens the settings panel, and Escape closes whatever is in front of the list.
use vstd::prelude::*;
use crate::config;
use crate::config::Config;
use crate::fonts;
use crate::launcher;
use crate::launcher::Notice;
use crate::mark;
use crate::mark::Mark;
use crate::search;
use crate::text;

verus! {

/// Which button a sign-in attempt came from.
#[derive(Clone, Copy, Debug, PartialEq, Eq, Structural)]
pub enum AuthMode {
    Login,
    Signup,
}

/// The sign-in dialog's own state.
pub struct AuthForm {
    /// The server to sign in to, as typed. The dialog is the only place this client is told
    /// which server to talk to: it has none of its own, so this is where every session begins.
    pub base_url: String,
    pub username: String,
    pub password: String,
    /// True while a sign-in request is in flight, which disables the form.
    pub busy: bool,
    pub error: Option<String>,
    /// Set when the form should take the caret on the next frame: at the first field that still
    /// needs filling in, which is the server's address when there is not one yet.
    pub focus_first_field: bool,
}

/// The mark being edited, and what is typed into the dialog about it.
///
/// A copy of the mark rather than a place in the list: the list is read while this is typed at,
/// and a mark can move in it, since a rename re-orders it.
pub struct EditForm {
    /// What is being changed, and what the change is sent to.
    pub mark_id: String,
    pub name: String,
    pub content: String,
    /// True while the change is in flight, which disables the form.
    pub busy: bool,
    pub error: Option<String>,
    /// Set when the name field should take the caret on the next frame, which is when the
    /// dialog has just been opened.
    pub focus_name: bool,
}

/// Something the window will do once the user has said to.
pub enum Pending {
    Delete { mark_id: String, name: String },
}

/// A question the window is asking before doing something it cannot take back.
pub struct Confirmation {
    pub question: String,
    /// What the action costs.
    pub note: String,
    /// What the button that goes through with it says, so that the button is the answer rather
    /// than a bare "yes".
    pub confirm: String,
    pub action: Pending,
}

/// The session the window is signed in with.
pub struct Session {
    /// Its token, when this run knows it. A sign-in always does; it is what the server set.
    pub token: Option<String>,
}

/// Something the work done around the window has to tell it.
pub enum Event {
    /// The credentials were accepted for the server at `base_url`, which need not be the one the
    /// window started with, and the session carries `token`.
    SignedIn { username: String, base_url: String, token: Option<String> },
    SignInFailed(String),
    Marks(Vec<Mark>),
    MarksFailed(String),
    /// A request was refused with 401, so the session is gone.
    SessionLost,
    Created(Mark),
    CreateFailed(String),
    /// A mark was changed, and this is it as the server now stores it.
    Updated(Mark),
    UpdateFailed(String),
    Deleted { mark_id: String, name: String },
    DeleteFailed(String),
    /// The names of the font families this machine has, once they have been read.
    SystemFonts(Vec<String>),
}

/// What the window needs done, by the program around it.
pub enum Effect {
    /// A session has begun: start fetching favicons for the server the window is signed in to,
    /// and ask it for the marks.
    Begin,
    /// The session is over: drop it, and its favicons, and forget `token` for `base_url` where
    /// the sessions are kept.
    EndSession { base_url: String, token: Option<String> },
    /// Send the credentials to `base_url`.
    SignIn { mode: AuthMode, base_url: String, username: String, password: String },
    /// Save a new mark holding `content`, named after the title of the page it links to when it
    /// has one, and `fallback` otherwise.
    CreateMark { content: String, fallback: String },
    /// Change the mark `mark_id` to this name and content.
    UpdateMark { mark_id: String, name: String, content: String },
    /// Delete the mark `mark_id`, which is called `name`.
    DeleteMark { mark_id: String, name: String },
    /// Drop the favicon kept for a mark that is gone.
    ForgetIcon { mark_id: String },
    /// Open `url` in the browser.
    OpenUrl { url: String },
    /// Read the font families this machine has.
    LoadSystemFonts,
    /// Put the font order onto the window.
    InstallFonts,
    /// Put the font order onto the window, and write the settings down.
    SaveFonts,
    /// Put the window's settings onto the window that is open.
    ApplyWindow,
    /// Put the window's settings onto the window, and write them down.
    SaveWindow,
    /// Close the window.
    Close,
}

/// The launcher's keys, as pressed in one frame.
pub struct Keys {
    /// Ctrl+Enter: save what is typed.
    pub save: bool,
    /// Ctrl+E: change the mark that is selected.
    pub edit: bool,
    /// Enter: open the mark that is selected.
    pub open: bool,
    pub up: bool,
    pub down: bool,
    /// Ctrl+D: ask to delete the mark that is selected.
    pub remove: bool,
    /// Ctrl+,: open the settings panel.
    pub config: bool,
    /// Escape: close the window.
    pub close: bool,
}

/// What the edit dialog was asked to do.
#[derive(Clone, Copy, Debug, PartialEq, Eq, Structural)]
pub enum EditRequest {
    Save,
    Cancel,
}

/// Which keys a frame reads, by what is in front of the list.
#[derive(Clone, Copy, Debug, PartialEq, Eq, Structural)]
pub enum KeyScope {
    /// The sign-in dialog: Enter submits, Escape quits.
    SignIn,
    /// The settings panel: Ctrl+, and Escape close it.
    Panel,
    /// The list itself: the launcher keys.
    Launcher,
    /// A dialog reading keys of its own.
    Dialog,
}

/// What one frame of the settings panel was asked to do, gathered while it was drawn.
pub struct PanelOutcome {
    /// Leave the session.
    pub log_out: bool,
    /// Put this font at the end of the order.
    pub added: Option<String>,
    /// Take the font at this place out of the order.
    pub removed: Option<usize>,
    /// Move the font at this place by this many places.
    pub moved: Option<(usize, isize)>,
    /// Keep the window at one size, or free it.
    pub fixed_size: Option<bool>,
    /// A size edit is over: bring it within reach, apply it and write it down.
    pub keep: bool,
    /// A size is being edited: bring it within reach and apply it.
    pub apply: bool,
}

/// What the bottom line says besides the notice: the Ctrl+Enter hint, who is signed in, and the
/// keys that work.
pub struct Footer {
    pub save: Option<String>,
    pub signed_in_as: Option<String>,
    pub keys: String,
}

/// The window: a search field, the marks it matches, and a sign-in dialog until there is a
/// session.
pub struct MarksApp {
    /// The server the window talks to; empty until one has been named.
    pub base_url: String,
    /// The session, once there is one. While there is none the sign-in dialog is up.
    pub session: Option<Session>,
    pub username: Option<String>,
    pub marks: Vec<Mark>,
    pub query: String,
    pub selected: usize,
    /// The settings the window is running by, and where they are kept.
    pub config: Config,
    /// The font families this machine has, once they have been read.
    pub system_fonts: Option<Vec<String>>,
    /// Whether that reading is under way, so that it is asked for once.
    pub loading_fonts: bool,
    /// What is typed in the panel's font search.
    pub font_query: String,
    /// Whether the configuration panel is up.
    pub config_open: bool,
    /// Whether the window's settings have been changed since the client was opened, after which
    /// the panel says that a window manager may apply a size only on the next start.
    pub window_settings_changed: bool,
    pub auth: AuthForm,
    /// The mark being changed, while a dialog is open for it.
    pub edit: Option<EditForm>,
    /// The question the window is asking before doing something it cannot take back.
    pub confirmation: Option<Confirmation>,
    pub notice: Option<Notice>,
}

/// An optional string, as a value.
pub open spec fn opt_view(s: Option<String>) -> Option<Seq<char>> {
    match s {
        Some(t) => Some(t@),
        None => None,
    }
}

/// Whether `n` is a notice saying `text`, as an error when `error`.
pub open spec fn notice_is(n: Option<Notice>, text: Seq<char>, error: bool) -> bool {
    n matches Some(m) && m.text@ == text && m.error == error
}

/// Whether the sign-in form is empty but for `base_url`, with nothing in flight, no error, and
/// the caret where `focus` says.
pub open spec fn fresh_form(f: AuthForm, base_url: Seq<char>, focus: bool) -> bool {
    &&& f.base_url@ == base_url
    &&& f.username@.len() == 0
    &&& f.password@.len() == 0
    &&& !f.busy
    &&& f.error is None
    &&& f.focus_first_field == focus
}

/// Whether the settings part of two windows is the same.
pub open spec fn same_settings(a: MarksApp, b: MarksApp) -> bool {
    &&& a.config == b.config
    &&& a.system_fonts == b.system_fonts
    &&& a.loading_fonts == b.loading_fonts
    &&& a.font_query == b.font_query
    &&& a.window_settings_changed == b.window_settings_changed
}

/// Whether the session part of two windows is the same.
pub open spec fn same_session(a: MarksApp, b: MarksApp) -> bool {
    &&& a.base_url == b.base_url
    &&& a.session == b.session
    &&& a.username == b.username
    &&& a.auth == b.auth
}

/// Whether the list part of two windows is the same.
pub open spec fn same_list(a: MarksApp, b: MarksApp) -> bool {
    &&& a.marks == b.marks
    &&& a.query == b.query
    &&& a.selected == b.selected
}

/// Whether the dialogs of two windows are the same.
pub open spec fn same_dialogs(a: MarksApp, b: MarksApp) -> bool {
    &&& a.config_open == b.config_open
    &&& a.edit == b.edit
    &&& a.confirmation == b.confirmation
}

/// Whether a font order names a font that egui does not carry, which cannot be honoured until
/// the machine's fonts have been read.
pub open spec fn names_a_system_font(priority: Seq<String>) -> bool {
    exists|i: int| 0 <= i < priority.len() && !fonts::available_fonts().contains(#[trigger] priority[i]@)
}

/// The session's token, as a value.
pub open spec fn token_of(s: Option<Session>) -> Option<Seq<char>> {
    match s {
        Some(session) => opt_view(session.token),
        None => None,
    }
}

/// The last place in a list of `count` entries, or the first when there are none.
pub open spec fn last_place(count: nat) -> int {
    if count == 0 {
        0
    } else {
        count - 1
    }
}

/// The key the list is ordered by: a mark's name in lower case.
pub open spec fn name_key(m: Mark) -> Seq<char> {
    text::lowercased(m.name@)
}

/// Whether the entry at `i` of `marks` is filed before the one at `j`: the name that comes first
/// in lower case, and the order they came in between names that are the same.
pub open spec fn files_before(marks: Seq<Mark>, i: int, j: int) -> bool {
    text::precedes(name_key(marks[i]), name_key(marks[j])) || (name_key(marks[i]) == name_key(
        marks[j],
    ) && i < j)
}

/// Whether `order` files every one of `marks`, each once, as [`files_before`] says.
pub open spec fn is_name_order(marks: Seq<Mark>, order: Seq<int>) -> bool {
    &&& order.len() == marks.len()
    &&& forall|k: int| 0 <= k < order.len() ==> 0 <= #[trigger] order[k] < marks.len()
    &&& forall|i: int| 0 <= i < marks.len() ==> #[trigger] order.contains(i)
    &&& forall|k: int, l: int|
        0 <= k < l < order.len() ==> files_before(marks, #[trigger] order[k], #[trigger] order[l])
}

/// Whether `sorted` is `marks` filed by name.
pub open spec fn filed_by_name(marks: Seq<Mark>, sorted: Seq<Mark>) -> bool {
    exists|order: Seq<int>|
        #![trigger is_name_order(marks, order)]
        is_name_order(marks, order) && sorted.len() == order.len() && forall|k: int|
            0 <= k < order.len() ==> sorted[k] == marks[#[trigger] order[k]]
}

/// The first place at or after `i` that holds the mark `id`, or the end of the list.
pub open spec fn first_held(marks: Seq<Mark>, id: Seq<char>, i: int) -> int
    decreases marks.len() - i,
{
    if 0 <= i < marks.len() && marks[i].id@ != id {
        first_held(marks, id, i + 1)
    } else {
        i
    }
}

/// `marks` with `mark` in them: in place of the one it is a new version of, or at the end.
pub open spec fn with_mark(marks: Seq<Mark>, mark: Mark) -> Seq<Mark> {
    let at = first_held(marks, mark.id@, 0);
    if at < marks.len() {
        marks.update(at, mark)
    } else {
        marks.push(mark)
    }
}

/// The first place in the list `order` draws of `marks` that shows the mark `id`, counting from
/// `k`, or the end of the list.
pub open spec fn first_listed(marks: Seq<Mark>, order: Seq<int>, id: Seq<char>, k: int) -> int
    decreases order.len() - k,
{
    if 0 <= k < order.len() && marks[order[k]].id@ != id {
        first_listed(marks, order, id, k + 1)
    } else {
        k
    }
}

/// Whether `selected` is the place the list of `marks` for `query` shows the mark `id` at, or
/// the top when it does not show it.
pub open spec fn selects(marks: Seq<Mark>, query: Seq<char>, id: Seq<char>, selected: int) -> bool {
    let order = launcher::listing(marks, query);
    selected == if first_listed(marks, order, id, 0) < order.len() {
        first_listed(marks, order, id, 0)
    } else {
        0
    }
}

/// Whether a list moved from `marks` to `settled` and a selection to `selected` the way a mark the
/// server has just answered with settles in: in place of its old version or added, filed by
/// name, and selected where the list for `query` shows it.
pub open spec fn settles(
    marks: Seq<Mark>,
    mark: Mark,
    query: Seq<char>,
    settled: Seq<Mark>,
    selected: int,
) -> bool {
    filed_by_name(with_mark(marks, mark), settled) && selects(settled, query, mark.id@, selected)
}

/// `marks` without the ones that are the mark `id`.
pub open spec fn without_id(marks: Seq<Mark>, id: Seq<char>) -> Seq<Mark>
    decreases marks.len(),
{
    if marks.len() == 0 {
        marks
    } else if marks.last().id@ == id {
        without_id(marks.drop_last(), id)
    } else {
        without_id(marks.drop_last(), id).push(marks.last())
    }
}

/// Whether `after` is `before` signed out with `reason` said in the sign-in dialog: no session,
/// no marks, the dialog up with the address kept, and the rest as it was.
pub open spec fn signed_out_of(before: MarksApp, after: MarksApp, reason: Option<Seq<char>>) -> bool {
    &&& after.session is None
    &&& after.username is None
    &&& after.marks@.len() == 0
    &&& after.selected == 0
    &&& !after.config_open
    &&& after.auth.base_url@ == before.base_url@
    &&& after.auth.username@.len() == 0
    &&& after.auth.password@.len() == 0
    &&& !after.auth.busy
    &&& opt_view(after.auth.error) == reason
    &&& after.auth.focus_first_field
    &&& after.base_url == before.base_url
    &&& after.query == before.query
    &&& after.edit == before.edit
    &&& after.confirmation == before.confirmation
    &&& after.notice == before.notice
    &&& same_settings(after, before)
}

/// Whether `e` ends the session `app` has: for its server, forgetting its token.
pub open spec fn ends_session(app: MarksApp, e: Effect) -> bool {
    e matches Effect::EndSession { base_url, token } && (base_url@ == app.base_url@ && opt_view(token)
        == token_of(app.session))
}

/// The selection `selected` kept inside a list of `count` entries.
pub open spec fn held_within(selected: usize, count: nat) -> int {
    if selected <= last_place(count) {
        selected as int
    } else {
        last_place(count)
    }
}

/// What the window says once a mark has been saved.
pub open spec fn saved_notice(name: Seq<char>) -> Seq<char> {
    "Saved \""@ + name + "\"."@
}

/// What the window says once a mark has been deleted.
pub open spec fn deleted_notice(name: Seq<char>) -> Seq<char> {
    "Deleted \""@ + name + "\"."@
}

/// What the sign-in dialog says when a session the window was using is refused.
pub open spec fn session_refused() -> Seq<char> {
    "That session is no longer valid - sign in again."@
}

/// Whether two windows are the same but for their notice.
pub open spec fn same_but_notice(a: MarksApp, b: MarksApp) -> bool {
    &&& same_list(a, b)
    &&& same_session(a, b)
    &&& same_dialogs(a, b)
    &&& same_settings(a, b)
}

/// Whether `after` is `before` with the selection moved by `delta` places, stopping at either
/// end of the list.
pub open spec fn moves_selection(before: MarksApp, after: MarksApp, delta: int) -> bool {
    let count = launcher::listed(before.marks@, before.query@);
    &&& count == 0 ==> after.selected == before.selected
    &&& count > 0 ==> after.selected == {
        let wanted = if before.selected + delta < 0 {
            0
        } else {
            before.selected + delta
        };
        if wanted <= count - 1 {
            wanted
        } else {
            count - 1
        }
    }
    &&& after.marks == before.marks
    &&& after.query == before.query
    &&& same_session(after, before)
    &&& same_settings(after, before)
    &&& same_dialogs(after, before)
    &&& after.notice == before.notice
}

/// What the window says while a mark named `name` is being saved.
pub open spec fn saving_notice(name: Seq<char>) -> Seq<char> {
    "Saving \""@ + name + "\"..."@
}

/// Whether `after` and `r` are what saving the search box (Ctrl+Enter) makes of `before`: with no
/// session nothing; with nothing typed a word about it; and otherwise the mark asked for, holding
/// what is typed as it is stored and named as it is when its page gives no title.
pub open spec fn saves_query(before: MarksApp, after: MarksApp, r: Option<Effect>) -> bool {
    let typed = text::trim(before.query@);
    let content = launcher::stored_content_of(typed);
    &&& before.session is None ==> r is None && after == before
    &&& before.session is Some && typed.len() == 0 ==> r is None && notice_is(
        after.notice,
        "Type a link or a note to save first."@,
        true,
    )
    &&& before.session is Some && typed.len() > 0 ==> (r matches Some(
        Effect::CreateMark { content: c, fallback },
    ) && c@ == content && fallback@ == launcher::fallback_name(content)) && notice_is(
        after.notice,
        saving_notice(launcher::fallback_name(content)),
        false,
    )
    &&& same_but_notice(after, before)
}

/// What the window says about a mark that is a note rather than a link.
pub open spec fn not_a_link(name: Seq<char>) -> Seq<char> {
    "\""@ + name + "\" is not a link."@
}

/// Whether `after` and `r` are what opening the selected mark (Enter) makes of `before`: the page
/// a link points at, a word about a note, and nothing when nothing is selected.
pub open spec fn opens_selected(before: MarksApp, after: MarksApp, r: Option<Effect>) -> bool {
    &&& match launcher::selection(before.marks@, before.query@, before.selected as int) {
        None => r is None && after.notice == before.notice,
        Some(m) => match mark::web_link_of(m.content@) {
            Some(p) => (r matches Some(Effect::OpenUrl { url }) && url@ == p.3) && after.notice
                == before.notice,
            None => r is None && notice_is(after.notice, not_a_link(m.name@), true),
        },
    }
    &&& same_but_notice(after, before)
}

/// Whether `after` and `r` are what sending the change typed into the edit dialog makes of
/// `before`: nothing without a dialog; a word in it about what is missing when the name or the
/// content is blank once trimmed; and otherwise the change in flight, and sent while there is a
/// session, with the name cut to what the server accepts.
pub open spec fn saves_edit(before: MarksApp, after: MarksApp, r: Option<Effect>) -> bool {
    &&& before.edit is None ==> r is None && after == before
    &&& before.edit matches Some(e) ==> ({
        let name = text::take_chars(text::trim(e.name@), launcher::MAX_NAME_CHARS as nat);
        let content = text::trim(e.content@);
        after.edit matches Some(f) && f.mark_id == e.mark_id && f.name == e.name && f.content
            == e.content && f.focus_name == e.focus_name && if name.len() == 0 || content.len()
            == 0 {
            &&& r is None
            &&& f.busy == e.busy
            &&& opt_view(f.error) == Some("A mark needs a name and something in it."@)
        } else {
            &&& f.busy
            &&& f.error is None
            &&& before.session is None ==> r is None
            &&& before.session is Some ==> (r matches Some(
                Effect::UpdateMark { mark_id, name: n, content: c },
            ) && mark_id@ == e.mark_id@ && n@ == name && c@ == content)
        }
    })
    &&& after.config_open == before.config_open
    &&& after.confirmation == before.confirmation
    &&& after.notice == before.notice
    &&& same_list(after, before)
    &&& same_session(after, before)
    &&& same_settings(after, before)
}

/// Whether `after` is `before` asking whether to delete the selected mark (Ctrl+D), or `before`
/// itself when nothing is selected.
pub open spec fn asks_to_delete(before: MarksApp, after: MarksApp) -> bool {
    &&& match launcher::selection(before.marks@, before.query@, before.selected as int) {
        None => after.confirmation == before.confirmation,
        Some(m) => after.confirmation matches Some(c) && (c.question@ == "Delete \""@ + m.name@
            + "\"?"@ && c.note@ == "The mark goes for good, and the favicon kept for it goes with it."@
            && c.confirm@ == "Delete"@ && (c.action matches Pending::Delete { mark_id, name }
            && mark_id@ == m.id@ && name@ == m.name@)),
    }
    &&& after.config_open == before.config_open
    &&& after.edit == before.edit
    &&& after.notice == before.notice
    &&& same_list(after, before)
    &&& same_session(after, before)
    &&& same_settings(after, before)
}

/// Whether `after` is `before` with the edit dialog opened on the selected mark (Ctrl+E), or
/// `before` itself when nothing is selected.
pub open spec fn opens_edit(before: MarksApp, after: MarksApp) -> bool {
    &&& match launcher::selection(before.marks@, before.query@, before.selected as int) {
        None => after.edit == before.edit,
        Some(m) => after.edit matches Some(e) && (e.mark_id@ == m.id@ && e.name@ == m.name@
            && e.content@ == m.content@ && !e.busy && e.error is None && e.focus_name),
    }
    &&& after.config_open == before.config_open
    &&& after.confirmation == before.confirmation
    &&& after.notice == before.notice
    &&& same_list(after, before)
    &&& same_session(after, before)
    &&& same_settings(after, before)
}

/// An optional effect as a list of effects.
pub open spec fn effects_of(e: Option<Effect>) -> Seq<Effect> {
    match e {
        Some(x) => seq![x],
        None => Seq::empty(),
    }
}

/// Whether two windows are the same but for their settings.
pub open spec fn same_but_settings(a: MarksApp, b: MarksApp) -> bool {
    &&& same_list(a, b)
    &&& same_session(a, b)
    &&& same_dialogs(a, b)
    &&& a.notice == b.notice
}

/// Whether the settings of `after` are those of `before` with the font order `order` settled in,
/// and nothing else about them changed.
pub open spec fn fonts_become(before: MarksApp, after: MarksApp, order: Seq<Seq<char>>) -> bool {
    &&& fonts::names_of(after.config.fonts.priority@) == config::settled_names(order)
    &&& after.config.window == before.config.window
    &&& after.config.path == before.config.path
    &&& after.system_fonts == before.system_fonts
    &&& after.loading_fonts == before.loading_fonts
    &&& after.font_query == before.font_query
    &&& after.window_settings_changed == before.window_settings_changed
}

/// `s` with the entries at `i` and `j` changed places.
pub open spec fn swapped<T>(s: Seq<T>, i: int, j: int) -> Seq<T> {
    s.update(i, s[j]).update(j, s[i])
}

/// Whether `after` and `r` are what moving the font at `index` by `delta` places makes of
/// `before`: nothing off either end of the order, and otherwise the two fonts changing places,
/// settled, put on the window and written down.
pub open spec fn moves_font(before: MarksApp, after: MarksApp, index: int, delta: int, r: Option<Effect>) -> bool {
    let order = fonts::names_of(before.config.fonts.priority@);
    let target = index + delta;
    &&& 0 <= target < order.len() ==> fonts_become(before, after, swapped(order, index, target))
        && r == Some(Effect::SaveFonts)
    &&& !(0 <= target < order.len()) ==> after == before && r is None
    &&& same_but_settings(after, before)
}

/// Whether `after` and `r` are what taking the font at `index` out of the order makes of
/// `before`: nothing when it is the last one or there is none there, and otherwise the order
/// without it, settled, put on the window and written down.
pub open spec fn removes_font(before: MarksApp, after: MarksApp, index: int, r: Option<Effect>) -> bool {
    let order = fonts::names_of(before.config.fonts.priority@);
    &&& (order.len() <= 1 || index < 0 || index >= order.len()) ==> after == before && r is None
    &&& !(order.len() <= 1 || index < 0 || index >= order.len()) ==> fonts_become(
        before,
        after,
        order.remove(index),
    ) && r == Some(Effect::SaveFonts)
    &&& same_but_settings(after, before)
}

/// Whether `name` is a font the window can find: one egui carries, or a family this machine has.
pub open spec fn known_font(app: MarksApp, name: Seq<char>) -> bool {
    fonts::available_fonts().contains(name) || (app.system_fonts matches Some(families)
        && fonts::names_of(families@).contains(name))
}

/// Whether `after` and `r` are what adding the font `name` makes of `before`: nothing for a name
/// the order already holds or one the window cannot find, and otherwise the order with it at the
/// end, settled, put on the window and written down.
pub open spec fn adds_font(before: MarksApp, after: MarksApp, name: Seq<char>, r: Option<Effect>) -> bool {
    let order = fonts::names_of(before.config.fonts.priority@);
    &&& (order.contains(name) || !known_font(before, name)) ==> after == before && r is None
    &&& !(order.contains(name) || !known_font(before, name)) ==> fonts_become(
        before,
        after,
        order.push(name),
    ) && r == Some(Effect::SaveFonts)
    &&& same_but_settings(after, before)
}

/// Whether the window part of the settings of `after` is that of `before` with `fixed` for
/// whether it keeps one size, and its numbers brought within reach.
pub open spec fn window_becomes(before: MarksApp, after: MarksApp, fixed: bool) -> bool {
    &&& after.config.window.fixed_size == fixed
    &&& after.config.window.width == config::clamped(
        before.config.window.width,
        config::MIN_WIDTH,
        config::MAX_SIDE,
    )
    &&& after.config.window.height == config::clamped(
        before.config.window.height,
        config::MIN_HEIGHT,
        config::MAX_SIDE,
    )
    &&& after.config.fonts == before.config.fonts
    &&& after.config.path == before.config.path
    &&& after.system_fonts == before.system_fonts
    &&& after.loading_fonts == before.loading_fonts
    &&& after.font_query == before.font_query
}

/// Whether `after` and `r` are what settling an edit of the window's settings makes of `before`:
/// the numbers within reach, put on the window and written down, and the panel from now on saying
/// that a window manager may only apply a size on the next start.
pub open spec fn settles_window(before: MarksApp, after: MarksApp, fixed: bool, r: Option<Effect>) -> bool {
    &&& window_becomes(before, after, fixed)
    &&& after.window_settings_changed
    &&& r == Some(Effect::SaveWindow)
    &&& same_but_settings(after, before)
}

/// Whether `after` and `r` are what a size being edited makes of `before`: the numbers within
/// reach and put on the window, and nothing written down yet.
pub open spec fn resizes(before: MarksApp, after: MarksApp, r: Option<Effect>) -> bool {
    &&& window_becomes(before, after, before.config.window.fixed_size)
    &&& after.window_settings_changed == before.window_settings_changed
    &&& r == Some(Effect::ApplyWindow)
    &&& same_but_settings(after, before)
}

/// Whether the windows `a` to `e` and then `after` are the steps the launcher keys `keys` take
/// `before` through, one key at a time, with `saved` and `opened` what saving and opening asked
/// for.
pub open spec fn key_steps(
    keys: Keys,
    before: MarksApp,
    a: MarksApp,
    b: MarksApp,
    c: MarksApp,
    d: MarksApp,
    e: MarksApp,
    after: MarksApp,
    saved: Option<Effect>,
    opened: Option<Effect>,
) -> bool {
    &&& if keys.up {
        moves_selection(before, a, -1)
    } else {
        a == before
    }
    &&& if keys.down {
        moves_selection(a, b, 1)
    } else {
        b == a
    }
    &&& if keys.remove {
        asks_to_delete(b, c)
    } else {
        c == b
    }
    &&& if keys.edit {
        opens_edit(c, d)
    } else {
        d == c
    }
    &&& if keys.save {
        saves_query(d, e, saved)
    } else {
        e == d && saved is None
    }
    &&& if keys.open {
        opens_selected(e, after, opened)
    } else {
        after == e && opened is None
    }
}

/// The keys the footer names while there is a session.
pub open spec fn launcher_key_hints() -> Seq<Seq<char>> {
    seq![
        "\u{2191}\u{2193} move"@,
        "Enter open"@,
        "Ctrl+E change"@,
        "Ctrl+D delete"@,
        "Ctrl+, settings"@,
        "Esc close"@,
    ]
}

/// `marks` filed by name, the order they came in kept between equal names.
fn sorted_by_name(marks: Vec<Mark>) -> (r: Vec<Mark>)
    ensures
        filed_by_name(marks@, r@),
{
    let ghost given = marks@;
    let n = marks.len();
    let mut rest = marks;
    let mut out: Vec<Mark> = Vec::new();
    let mut keys: Vec<Vec<char>> = Vec::new();
    let ghost mut order: Seq<int> = Seq::empty();
    let mut i: usize = 0;
    while i < n
        invariant
            i <= n,
            n == given.len(),
            rest@ == given.skip(i as int),
            order.len() == i,
            out@.len() == order.len(),
            keys@.len() == order.len(),
            forall|k: int| 0 <= k < order.len() ==> 0 <= #[trigger] order[k] < i,
            forall|k: int| 0 <= k < order.len() ==> out@[k] == given[#[trigger] order[k]],
            forall|k: int| 0 <= k < order.len() ==> (#[trigger] keys@[k])@ == name_key(given[order[k]]),
            forall|m: int| 0 <= m < i ==> #[trigger] order.contains(m),
            forall|k: int, l: int|
                0 <= k < l < order.len() ==> files_before(given, #[trigger] order[k], #[trigger] order[l]),
        decreases n - i,
    {
        let mark = rest.remove(0);
        assert(mark == given[i as int]);
        assert(rest@ =~= given.skip(i + 1));
        let lower = text::to_lowercase(mark.name.as_str());
        let key = text::chars_of(lower.as_str());
        let mut at = out.len();
        while at > 0 && text::comes_before(key.as_slice(), keys[at - 1].as_slice())
            invariant
                at <= keys@.len(),
                forall|k: int| at <= k < keys@.len() ==> text::precedes(key@, (#[trigger] keys@[k])@),
            decreases at,
        {
            at -= 1;
        }
        let ghost old_order = order;
        let ghost old_keys = keys@;
        proof {
            if at > 0 {
                text::lemma_precedes_total(key@, old_keys[at - 1]@);
            }
        }
        out.insert(at, mark);
        keys.insert(at, key);
        proof {
            order = old_order.insert(at as int, i as int);
            assert forall|k: int, l: int| 0 <= k < l < order.len() implies files_before(
                given,
                #[trigger] order[k],
                #[trigger] order[l],
            ) by {
                if l < at {
                    assert(order[k] == old_order[k] && order[l] == old_order[l]);
                } else if l == at {
                    let last = old_order[at - 1];
                    assert(text::precedes(name_key(given[last]), name_key(given[i as int])) || name_key(
                        given[last],
                    ) == name_key(given[i as int]));
                    if k < at - 1 {
                        assert(files_before(given, old_order[k], last));
                        if text::precedes(name_key(given[old_order[k]]), name_key(given[last]))
                            && text::precedes(name_key(given[last]), name_key(given[i as int])) {
                            text::lemma_precedes_transitive(
                                name_key(given[old_order[k]]),
                                name_key(given[last]),
                                name_key(given[i as int]),
                            );
                        }
                    }
                } else if k < at {
                    assert(order[k] == old_order[k] && order[l] == old_order[l - 1]);
                } else if k == at {
                    assert(text::precedes(key@, old_keys[l - 1]@));
                } else {
                    assert(order[k] == old_order[k - 1] && order[l] == old_order[l - 1]);
                }
            }
            assert forall|m: int| 0 <= m < i + 1 implies #[trigger] order.contains(m) by {
                if m == i {
                    assert(order[at as int] == m);
                } else {
                    assert(old_order.contains(m));
                    let k = choose|k: int| 0 <= k < old_order.len() && old_order[k] == m;
                    if k < at {
                        assert(order[k] == m);
                    } else {
                        assert(order[k + 1] == m);
                    }
                }
            }
            assert forall|k: int| 0 <= k < order.len() implies out@[k] == given[#[trigger] order[k]] by {
                if k > at {
                    assert(order[k] == old_order[k - 1]);
                }
            }
            assert forall|k: int| 0 <= k < order.len() implies (#[trigger] keys@[k])@ == name_key(
                given[order[k]],
            ) by {
                if k > at {
                    assert(order[k] == old_order[k - 1]);
                }
            }
        }
        i += 1;
    }
    assert(is_name_order(given, order));
    out
}

/// Whether `list` holds `name`.
fn holds(list: &[String], name: &str) -> (r: bool)
    ensures
        r == fonts::names_of(list@).contains(name@),
{
    let mut i: usize = 0;
    while i < list.len()
        invariant
            i <= list.len(),
            forall|k: int| 0 <= k < i ==> (#[trigger] list@[k])@ != name@,
        decreases list.len() - i,
    {
        if text::same_text(list[i].as_str(), name) {
            assert(fonts::names_of(list@)[i as int] == name@);
            return true;
        }
        i += 1;
    }
    assert forall|k: int| 0 <= k < fonts::names_of(list@).len() implies fonts::names_of(list@)[k] != name@ by {
        assert(fonts::names_of(list@)[k] == list@[k]@);
    }
    false
}

/// Whether an edit to a number in the panel is over, so that what it left can be written down: a
/// drag that stopped, a field that lost the keyboard, or a change that was typed or stepped
/// rather than dragged. A number being dragged changes on every frame of the drag, and a settings
/// file is not worth writing sixty times a second.
pub fn edit_finished(drag_stopped: bool, lost_focus: bool, changed: bool, dragged: bool) -> (r: bool)
    ensures
        r == (drag_stopped || lost_focus || (changed && !dragged)),
{
    drag_stopped || lost_focus || (changed && !dragged)
}

/// How many fonts the panel lists at once: enough to choose from, few enough to draw every frame.
pub const ADD_LIMIT: usize = 60;

/// The fonts the settings panel could offer to add: every font egui carries, then every family
/// this machine has.
pub open spec fn font_candidates(system: Seq<Seq<char>>) -> Seq<Seq<char>> {
    fonts::available_fonts() + system
}

/// How well each of `candidates` answers `query`, with no score at all for one that `priority`
/// already holds.
pub open spec fn candidate_scores(
    candidates: Seq<Seq<char>>,
    priority: Seq<Seq<char>>,
    query: Seq<char>,
) -> Seq<Option<i64>> {
    candidates.map_values(
        |name: Seq<char>|
            if priority.contains(name) {
                None
            } else {
                match search::found_in(name, query) {
                    Some((score, _)) => Some(score),
                    None => None,
                }
            },
    )
}

/// The fonts the panel offers to add, best answer to the query first, and how many answered it.
///
/// Every font egui carries and every family this machine has, less the ones the order already
/// names, ranked the way the marks are. At most [`ADD_LIMIT`] of them are offered; the count is
/// of all of them, so that the panel can say how many were left out.
pub fn fonts_to_add(query: &str, system: &[String], priority: &[String]) -> (r: (Vec<String>, usize))
    ensures
        ({
            let candidates = font_candidates(fonts::names_of(system@));
            let scores = candidate_scores(candidates, fonts::names_of(priority@), query@);
            let order = launcher::ranking_of(scores);
            &&& launcher::is_ranked(scores, order)
            &&& r.1 == order.len()
            &&& r.0@.len() == if order.len() <= ADD_LIMIT {
                order.len() as int
            } else {
                ADD_LIMIT as int
            }
            &&& forall|k: int| 0 <= k < r.0@.len() ==> (#[trigger] r.0@[k])@ == candidates[order[k]]
        }),
{
    let ghost wanted = font_candidates(fonts::names_of(system@));
    let mut candidates: Vec<String> = fonts::available();
    let mut i: usize = 0;
    while i < system.len()
        invariant
            i <= system.len(),
            fonts::names_of(candidates@) == fonts::available_fonts() + fonts::names_of(system@).take(
                i as int,
            ),
        decreases system.len() - i,
    {
        let ghost before = candidates@;
        let copy = system[i].clone();
        assert(copy@ == system@[i as int]@);
        candidates.push(copy);
        assert(fonts::names_of(candidates@) =~= fonts::names_of(before).push(system@[i as int]@));
        assert(fonts::names_of(system@).take(i + 1) =~= fonts::names_of(system@).take(i as int).push(
            system@[i as int]@,
        ));
        i += 1;
        assert(fonts::names_of(candidates@) =~= fonts::available_fonts() + fonts::names_of(
            system@,
        ).take(i as int));
    }
    assert(fonts::names_of(system@).take(i as int) =~= fonts::names_of(system@));
    let ghost scores_wanted = candidate_scores(wanted, fonts::names_of(priority@), query@);
    let mut scores: Vec<Option<i64>> = Vec::new();
    let mut j: usize = 0;
    while j < candidates.len()
        invariant
            j <= candidates.len(),
            fonts::names_of(candidates@) == wanted,
            scores_wanted == candidate_scores(wanted, fonts::names_of(priority@), query@),
            scores@ == scores_wanted.take(j as int),
        decreases candidates.len() - j,
    {
        let name = candidates[j].as_str();
        assert(wanted[j as int] == name@);
        let score = if holds(priority, name) {
            None
        } else {
            match search::find(name, query) {
                Some(found) => Some(found.score),
                None => None,
            }
        };
        scores.push(score);
        j += 1;
        assert(scores@ =~= scores_wanted.take(j as int));
    }
    assert(scores@ =~= scores_wanted);
    let order = launcher::rank_by_score(scores.as_slice());
    let ghost positions = order@.map_values(|p: usize| p as int);
    assert(launcher::is_ranked(scores@, positions)) by {
        assert forall|m: int| 0 <= m < scores@.len() && (#[trigger] scores@[m]) is Some implies positions.contains(m) by {
            let k = choose|k: int| 0 <= k < order@.len() && order@[k] == m;
            assert(positions[k] == m);
        }
    }
    proof {
        launcher::lemma_one_order(scores@, positions, launcher::ranking_of(scores@));
    }
    let answered = order.len();
    let mut shown: Vec<String> = Vec::new();
    let mut k: usize = 0;
    while k < order.len() && k < ADD_LIMIT
        invariant
            k <= order@.len(),
            k <= ADD_LIMIT,
            shown@.len() == k,
            fonts::names_of(candidates@) == wanted,
            forall|m: int| 0 <= m < order@.len() ==> #[trigger] order@[m] < candidates@.len(),
            forall|m: int| 0 <= m < k ==> (#[trigger] shown@[m])@ == wanted[positions[m]],
            positions == order@.map_values(|p: usize| p as int),
        decreases order.len() - k,
    {
        let name = candidates[order[k]].clone();
        assert(name@ == wanted[positions[k as int]]);
        shown.push(name);
        k += 1;
    }
    (shown, answered)
}

/// Whether the settings name a font egui does not carry.
fn names_system_font(priority: &Vec<String>) -> (r: bool)
    ensures
        r == names_a_system_font(priority@),
{
    let mut i: usize = 0;
    while i < priority.len()
        invariant
            i <= priority.len(),
            forall|k: int| 0 <= k < i ==> fonts::available_fonts().contains(#[trigger] priority@[k]@),
        decreases priority.len() - i,
    {
        if !fonts::bundled(priority[i].as_str()) {
            return true;
        }
        i += 1;
    }
    false
}

impl AuthForm {
    /// Whether the caret starts in the server's address rather than the username: the first
    /// thing the user has to fill in, which is the address while there is none.
    pub fn caret_in_server(&self) -> (r: bool)
        ensures
            r == (text::trim(self.base_url@).len() == 0),
    {
        text::trim_str(self.base_url.as_str()).as_str().is_empty()
    }

    /// A form holding only `base_url`, with the caret where `focus` says.
    pub fn starting_at(base_url: String, focus: bool) -> (r: AuthForm)
        ensures
            fresh_form(r, base_url@, focus),
    {
        AuthForm {
            base_url,
            username: String::new(),
            password: String::new(),
            busy: false,
            error: None,
            focus_first_field: focus,
        }
    }
}

impl MarksApp {
    /// The window, with the server to talk to, the session to start from and the settings to run
    /// by handed in, and what it asks for before its first frame.
    ///
    /// A session to start from takes both halves: a token, and a server to present it to, so a
    /// token with no address beside it is no session here. Without one, the first thing the
    /// window shows is the sign-in dialog, filled in with the address this run was given, with
    /// the caret in its first field.
    pub fn new(base_url: String, token: Option<String>, config: Config) -> (r: (MarksApp, Vec<Effect>))
        ensures
            r.0.base_url@ == base_url@,
            (r.0.session is Some) == (token is Some && base_url@.len() > 0),
            r.0.session matches Some(s) ==> opt_view(s.token) == opt_view(token),
            r.0.username is None,
            r.0.marks@.len() == 0,
            r.0.query@.len() == 0,
            r.0.selected == 0,
            r.0.config == config,
            r.0.system_fonts is None,
            r.0.loading_fonts == names_a_system_font(config.fonts.priority@),
            r.0.font_query@.len() == 0,
            !r.0.config_open,
            !r.0.window_settings_changed,
            fresh_form(r.0.auth, base_url@, true),
            r.0.edit is None,
            r.0.confirmation is None,
            r.0.notice is None,
            r.1@ == (if names_a_system_font(config.fonts.priority@) {
                seq![Effect::LoadSystemFonts]
            } else {
                Seq::empty()
            }) + (if r.0.session is Some {
                seq![Effect::Begin]
            } else {
                Seq::empty()
            }),
    {
        let session = match token {
            Some(token) => {
                if base_url.as_str().is_empty() {
                    None
                } else {
                    Some(Session { token: Some(token) })
                }
            },
            None => None,
        };
        let signed_in = session.is_some();
        let loading = names_system_font(&config.fonts.priority);
        let asked_about = base_url.clone();
        let app = MarksApp {
            base_url,
            session,
            username: None,
            marks: Vec::new(),
            query: String::new(),
            selected: 0,
            config,
            system_fonts: None,
            loading_fonts: loading,
            font_query: String::new(),
            config_open: false,
            window_settings_changed: false,
            auth: AuthForm::starting_at(asked_about, true),
            edit: None,
            confirmation: None,
            notice: None,
        };
        let mut effects: Vec<Effect> = Vec::new();
        if loading {
            effects.push(Effect::LoadSystemFonts);
        }
        if signed_in {
            effects.push(Effect::Begin);
        }
        assert(effects@ =~= (if loading {
            seq![Effect::LoadSystemFonts]
        } else {
            Seq::empty()
        }) + (if signed_in {
            seq![Effect::Begin]
        } else {
            Seq::empty()
        }));
        (app, effects)
    }

    /// Drops the session and puts the sign-in dialog back up, saying `reason` in it.
    ///
    /// `reason` is nothing at all when the user asked for this: a session that was refused is
    /// worth explaining, and a logout is not. The address stays in the dialog, since it is what
    /// the user would otherwise have to type again to get back in; everything else about the
    /// session goes, and so does its token where the sessions are kept.
    pub fn signed_out(&mut self, reason: Option<&str>) -> (r: Effect)
        ensures
            ends_session(*old(self), r),
            signed_out_of(
                *old(self),
                *final(self),
                match reason {
                    Some(why) => Some(why@),
                    None => None,
                },
            ),
    {
        let token = match &self.session {
            Some(session) => match &session.token {
                Some(token) => Some(token.clone()),
                None => None,
            },
            None => None,
        };
        self.session = None;
        self.username = None;
        self.marks = Vec::new();
        self.selected = 0;
        self.config_open = false;
        let mut form = AuthForm::starting_at(self.base_url.clone(), true);
        form.error = match reason {
            Some(why) => Some(why.to_owned()),
            None => None,
        };
        self.auth = form;
        Effect::EndSession { base_url: self.base_url.clone(), token }
    }

    /// How many marks the list shows for what is typed.
    pub fn listed_count(&self) -> (r: usize)
        ensures
            r == launcher::listed(self.marks@, self.query@),
    {
        launcher::filter_marks(self.marks.as_slice(), self.query.as_str()).len()
    }

    /// Keeps the selection inside the list after it shrinks.
    pub fn clamp_selection(&mut self)
        ensures
            final(self).selected == if old(self).selected <= last_place(
                launcher::listed(old(self).marks@, old(self).query@),
            ) {
                old(self).selected as int
            } else {
                last_place(launcher::listed(old(self).marks@, old(self).query@))
            },
            final(self).marks == old(self).marks,
            final(self).query == old(self).query,
            same_session(*final(self), *old(self)),
            same_settings(*final(self), *old(self)),
            same_dialogs(*final(self), *old(self)),
            final(self).notice == old(self).notice,
    {
        let count = self.listed_count();
        let last = if count == 0 {
            0
        } else {
            count - 1
        };
        if self.selected > last {
            self.selected = last;
        }
    }

    /// Moves the selection by `delta` places, stopping at either end of the list.
    pub fn move_selection(&mut self, delta: isize)
        ensures
            moves_selection(*old(self), *final(self), delta as int),
    {
        let count = self.listed_count();
        if count == 0 {
            return;
        }
        let last = count - 1;
        let wanted: usize = if delta < 0 {
            let back = (0 - (delta + 1)) as usize + 1;
            if back > self.selected {
                0
            } else {
                self.selected - back
            }
        } else {
            let ahead = delta as usize;
            let from = if self.selected < last {
                self.selected
            } else {
                last
            };
            if ahead > last - from {
                last
            } else {
                self.selected + ahead
            }
        };
        self.selected = if wanted < last {
            wanted
        } else {
            last
        };
    }

    /// Puts a mark the server has just answered with where it belongs in the list, and selects
    /// it.
    ///
    /// The server orders marks by name, so a renamed one moves: the list is filed again here
    /// rather than reloaded to find out where it went.
    pub fn settle_mark(&mut self, mark: Mark)
        ensures
            settles(old(self).marks@, mark, old(self).query@, final(self).marks@, final(self).selected as int),
            final(self).query == old(self).query,
            same_session(*final(self), *old(self)),
            same_settings(*final(self), *old(self)),
            same_dialogs(*final(self), *old(self)),
            final(self).notice == old(self).notice,
    {
        let ghost given = self.marks@;
        let id = mark.id.clone();
        let mut at: usize = 0;
        while at < self.marks.len() && !text::same_text(self.marks[at].id.as_str(), id.as_str())
            invariant
                at <= self.marks@.len(),
                self.marks@ == given,
                id@ == mark.id@,
                first_held(given, mark.id@, 0) == first_held(given, mark.id@, at as int),
            decreases self.marks.len() - at,
        {
            at += 1;
        }
        let mut marks: Vec<Mark> = Vec::new();
        std::mem::swap(&mut marks, &mut self.marks);
        if at < marks.len() {
            marks.remove(at);
            marks.insert(at, mark);
            assert(marks@ =~= given.update(at as int, mark));
        } else {
            marks.push(mark);
        }
        assert(marks@ == with_mark(given, mark));
        self.marks = sorted_by_name(marks);
        let listed = launcher::filter_marks(self.marks.as_slice(), self.query.as_str());
        let ghost order = launcher::listing(self.marks@, self.query@);
        let mut k: usize = 0;
        while k < listed.len() && !text::same_text(listed[k].id.as_str(), id.as_str())
            invariant
                k <= listed@.len(),
                order.len() == listed@.len(),
                forall|j: int| 0 <= j < order.len() ==> *listed@[j] == self.marks@[#[trigger] order[j]],
                id@ == mark.id@,
                first_listed(self.marks@, order, mark.id@, 0) == first_listed(
                    self.marks@,
                    order,
                    mark.id@,
                    k as int,
                ),
            decreases listed.len() - k,
        {
            k += 1;
        }
        let found = k < listed.len();
        self.selected = if found {
            k
        } else {
            0
        };
    }

    /// Drops the marks that are the mark `mark_id`, and keeps the selection inside what is left.
    fn drop_mark(&mut self, mark_id: &str)
        ensures
            final(self).marks@ == without_id(old(self).marks@, mark_id@),
            final(self).marks@ == old(self).marks@.filter(other_than(mark_id@)),
            final(self).selected == held_within(
                old(self).selected,
                launcher::listed(final(self).marks@, old(self).query@),
            ),
            final(self).query == old(self).query,
            same_session(*final(self), *old(self)),
            same_settings(*final(self), *old(self)),
            same_dialogs(*final(self), *old(self)),
            final(self).notice == old(self).notice,
    {
        let mut rest: Vec<Mark> = Vec::new();
        std::mem::swap(&mut rest, &mut self.marks);
        let ghost given = rest@;
        let n = rest.len();
        let mut kept: Vec<Mark> = Vec::new();
        let mut i: usize = 0;
        while i < n
            invariant
                i <= n,
                n == given.len(),
                rest@ == given.skip(i as int),
                kept@ == without_id(given.take(i as int), mark_id@),
            decreases n - i,
        {
            let mark = rest.remove(0);
            assert(mark == given[i as int]);
            assert(rest@ =~= given.skip(i + 1));
            assert(given.take(i + 1).drop_last() =~= given.take(i as int));
            if !text::same_text(mark.id.as_str(), mark_id) {
                kept.push(mark);
            }
            i += 1;
        }
        assert(given.take(i as int) =~= given);
        proof {
            lemma_deleting_keeps_order(given, mark_id@);
        }
        self.marks = kept;
        self.clamp_selection();
    }

    /// Takes in one thing the work done around the window has reported, and says what is to be
    /// done about it.
    pub fn on_event(&mut self, event: Event) -> (r: Option<Effect>)
        ensures
            match event {
                Event::SignedIn { username, base_url, token } => {
                    &&& final(self).base_url == base_url
                    &&& final(self).session matches Some(s) && s.token == token
                    &&& final(self).username == Some(username)
                    &&& fresh_form(final(self).auth, Seq::empty(), false)
                    &&& final(self).notice is None
                    &&& same_list(*final(self), *old(self))
                    &&& same_dialogs(*final(self), *old(self))
                    &&& same_settings(*final(self), *old(self))
                    &&& r == Some(Effect::Begin)
                },
                Event::SignInFailed(message) => {
                    &&& final(self).auth.error == Some(message)
                    &&& !final(self).auth.busy
                    &&& final(self).auth.focus_first_field
                    &&& final(self).auth.base_url == old(self).auth.base_url
                    &&& final(self).auth.username == old(self).auth.username
                    &&& final(self).auth.password == old(self).auth.password
                    &&& final(self).base_url == old(self).base_url
                    &&& final(self).session == old(self).session
                    &&& final(self).username == old(self).username
                    &&& final(self).notice == old(self).notice
                    &&& same_list(*final(self), *old(self))
                    &&& same_dialogs(*final(self), *old(self))
                    &&& same_settings(*final(self), *old(self))
                    &&& r is None
                },
                Event::Marks(marks) => {
                    &&& final(self).marks == marks
                    &&& final(self).selected == 0
                    &&& final(self).notice is None
                    &&& final(self).query == old(self).query
                    &&& same_session(*final(self), *old(self))
                    &&& same_dialogs(*final(self), *old(self))
                    &&& same_settings(*final(self), *old(self))
                    &&& r is None
                },
                Event::MarksFailed(message) => {
                    &&& notice_is(final(self).notice, message@, true)
                    &&& same_list(*final(self), *old(self))
                    &&& same_session(*final(self), *old(self))
                    &&& same_dialogs(*final(self), *old(self))
                    &&& same_settings(*final(self), *old(self))
                    &&& r is None
                },
                Event::SessionLost => {
                    &&& signed_out_of(*old(self), *final(self), Some(session_refused()))
                    &&& r matches Some(e) && ends_session(*old(self), e)
                },
                Event::Created(mark) => {
                    &&& notice_is(final(self).notice, saved_notice(mark.name@), false)
                    &&& final(self).query@.len() == 0
                    &&& settles(
                        old(self).marks@,
                        mark,
                        Seq::empty(),
                        final(self).marks@,
                        final(self).selected as int,
                    )
                    &&& same_session(*final(self), *old(self))
                    &&& same_dialogs(*final(self), *old(self))
                    &&& same_settings(*final(self), *old(self))
                    &&& r is None
                },
                Event::CreateFailed(message) => {
                    &&& notice_is(final(self).notice, message@, true)
                    &&& same_list(*final(self), *old(self))
                    &&& same_session(*final(self), *old(self))
                    &&& same_dialogs(*final(self), *old(self))
                    &&& same_settings(*final(self), *old(self))
                    &&& r is None
                },
                Event::Updated(mark) => {
                    &&& notice_is(final(self).notice, saved_notice(mark.name@), false)
                    &&& final(self).edit is None
                    &&& settles(
                        old(self).marks@,
                        mark,
                        old(self).query@,
                        final(self).marks@,
                        final(self).selected as int,
                    )
                    &&& final(self).query == old(self).query
                    &&& final(self).config_open == old(self).config_open
                    &&& final(self).confirmation == old(self).confirmation
                    &&& same_session(*final(self), *old(self))
                    &&& same_settings(*final(self), *old(self))
                    &&& r is None
                },
                Event::UpdateFailed(message) => {
                    &&& match old(self).edit {
                        Some(e) => final(self).edit matches Some(f) && (f.mark_id == e.mark_id
                            && f.name == e.name && f.content == e.content && !f.busy && f.error
                            == Some(message) && f.focus_name == e.focus_name),
                        None => final(self).edit is None,
                    }
                    &&& final(self).config_open == old(self).config_open
                    &&& final(self).confirmation == old(self).confirmation
                    &&& final(self).notice == old(self).notice
                    &&& same_list(*final(self), *old(self))
                    &&& same_session(*final(self), *old(self))
                    &&& same_settings(*final(self), *old(self))
                    &&& r is None
                },
                Event::Deleted { mark_id, name } => {
                    &&& final(self).marks@ == without_id(old(self).marks@, mark_id@)
                    &&& final(self).selected == held_within(
                        old(self).selected,
                        launcher::listed(final(self).marks@, old(self).query@),
                    )
                    &&& notice_is(final(self).notice, deleted_notice(name@), false)
                    &&& final(self).query == old(self).query
                    &&& same_session(*final(self), *old(self))
                    &&& same_dialogs(*final(self), *old(self))
                    &&& same_settings(*final(self), *old(self))
                    &&& r matches Some(Effect::ForgetIcon { mark_id: gone }) && gone == mark_id
                },
                Event::DeleteFailed(message) => {
                    &&& notice_is(final(self).notice, message@, true)
                    &&& same_list(*final(self), *old(self))
                    &&& same_session(*final(self), *old(self))
                    &&& same_dialogs(*final(self), *old(self))
                    &&& same_settings(*final(self), *old(self))
                    &&& r is None
                },
                Event::SystemFonts(families) => {
                    &&& !final(self).loading_fonts
                    &&& final(self).system_fonts == Some(families)
                    &&& final(self).config == old(self).config
                    &&& final(self).font_query == old(self).font_query
                    &&& final(self).window_settings_changed == old(self).window_settings_changed
                    &&& final(self).notice == old(self).notice
                    &&& same_list(*final(self), *old(self))
                    &&& same_session(*final(self), *old(self))
                    &&& same_dialogs(*final(self), *old(self))
                    &&& r == Some(Effect::InstallFonts)
                },
            },
    {
        match event {
            Event::SignedIn { username, base_url, token } => {
                // The address first: the favicons are kept per server, so the session has to be
                // known to be for this one before they are fetched.
                self.base_url = base_url;
                self.session = Some(Session { token });
                self.username = Some(username);
                self.auth = AuthForm::starting_at(String::new(), false);
                self.notice = None;
                Some(Effect::Begin)
            },
            Event::SignInFailed(message) => {
                self.auth.busy = false;
                self.auth.error = Some(message);
                // After a failed attempt, the first field still empty is the likely thing to fix.
                self.auth.focus_first_field = true;
                None
            },
            Event::Marks(marks) => {
                self.marks = marks;
                self.selected = 0;
                self.notice = None;
                None
            },
            Event::MarksFailed(message) => {
                self.notice = Some(Notice::error(message));
                None
            },
            Event::SessionLost => {
                let refused = "That session is no longer valid - sign in again.";
                Some(self.signed_out(Some(refused)))
            },
            Event::Created(mark) => {
                let said = text::concat("Saved \"", mark.name.as_str());
                self.notice = Some(Notice::info(text::concat(said.as_str(), "\".")));
                // The search box did its job; clearing it shows the new mark in place.
                self.query = String::new();
                self.settle_mark(mark);
                None
            },
            Event::CreateFailed(message) => {
                self.notice = Some(Notice::error(message));
                None
            },
            Event::Updated(mark) => {
                let said = text::concat("Saved \"", mark.name.as_str());
                self.notice = Some(Notice::info(text::concat(said.as_str(), "\".")));
                // The dialog has done its job and the change has landed.
                self.edit = None;
                self.settle_mark(mark);
                None
            },
            Event::UpdateFailed(message) => {
                // The dialog stays up with what was typed still in it: a change that was refused
                // is worth another try.
                if let Some(mut edit) = self.edit.take() {
                    edit.busy = false;
                    edit.error = Some(message);
                    self.edit = Some(edit);
                }
                None
            },
            Event::Deleted { mark_id, name } => {
                self.drop_mark(mark_id.as_str());
                let said = text::concat("Deleted \"", name.as_str());
                self.notice = Some(Notice::info(text::concat(said.as_str(), "\".")));
                Some(Effect::ForgetIcon { mark_id })
            },
            Event::DeleteFailed(message) => {
                self.notice = Some(Notice::error(message));
                None
            },
            Event::SystemFonts(families) => {
                self.loading_fonts = false;
                self.system_fonts = Some(families);
                // The settings may name a font that could not be loaded until now.
                Some(Effect::InstallFonts)
            },
        }
    }

    /// Saves what is in the search box as a new mark (Ctrl+Enter).
    ///
    /// A bare host is stored with its scheme, so the mark both opens and gets a favicon. The
    /// name is settled by the program, which fetches the page's title off this thread; what is
    /// said meanwhile names the mark after its host.
    pub fn save_query(&mut self) -> (r: Option<Effect>)
        ensures
            saves_query(*old(self), *final(self), r),
    {
        if self.session.is_none() {
            return None;
        }
        let typed = text::trim_str(self.query.as_str());
        if typed.as_str().is_empty() {
            self.notice = Some(Notice::error("Type a link or a note to save first.".to_owned()));
            return None;
        }
        let content = launcher::stored_content(typed.as_str());
        let fallback = launcher::mark_name(content.as_str());
        let said = text::concat("Saving \"", fallback.as_str());
        self.notice = Some(Notice::info(text::concat(said.as_str(), "\"...")));
        Some(Effect::CreateMark { content, fallback })
    }

    /// Opens the selected mark in the browser (Enter), or says that it is a note.
    pub fn open_selected(&mut self) -> (r: Option<Effect>)
        ensures
            opens_selected(*old(self), *final(self), r),
    {
        let chosen = launcher::selected_mark(self.marks.as_slice(), self.query.as_str(), self.selected);
        let said = match chosen {
            None => {
                return None;
            },
            Some(mark) => match mark.link() {
                Some(url) => {
                    return Some(Effect::OpenUrl { url: url.address });
                },
                None => {
                    let quoted = text::concat("\"", mark.name.as_str());
                    text::concat(quoted.as_str(), "\" is not a link.")
                },
            },
        };
        self.notice = Some(Notice::error(said));
        None
    }

    /// Asks before deleting the selected mark (Ctrl+D).
    ///
    /// Nothing is deleted here and nothing is sent: this is the one thing the window does that
    /// cannot be taken back, so it is asked about first.
    pub fn ask_to_delete(&mut self)
        ensures
            asks_to_delete(*old(self), *final(self)),
    {
        let chosen = launcher::selected_mark(self.marks.as_slice(), self.query.as_str(), self.selected);
        let asked = match chosen {
            None => {
                return;
            },
            Some(mark) => {
                let quoted = text::concat("Delete \"", mark.name.as_str());
                Confirmation {
                    question: text::concat(quoted.as_str(), "\"?"),
                    note: "The mark goes for good, and the favicon kept for it goes with it.".to_owned(),
                    confirm: "Delete".to_owned(),
                    action: Pending::Delete { mark_id: mark.id.clone(), name: mark.name.clone() },
                }
            },
        };
        self.confirmation = Some(asked);
    }

    /// Takes the answer to the question the window asked: the question comes down, and a yes to
    /// deleting a mark asks the server to, while there is a session to ask with.
    pub fn answer(&mut self, confirmed: bool) -> (r: Option<Effect>)
        ensures
            final(self).confirmation is None,
            match old(self).confirmation {
                Some(c) => match c.action {
                    Pending::Delete { mark_id, name } => if confirmed && old(self).session is Some {
                        r matches Some(Effect::DeleteMark { mark_id: gone, name: called }) && gone
                            == mark_id && called == name
                    } else {
                        r is None
                    },
                },
                None => r is None,
            },
            final(self).config_open == old(self).config_open,
            final(self).edit == old(self).edit,
            final(self).notice == old(self).notice,
            same_list(*final(self), *old(self)),
            same_session(*final(self), *old(self)),
            same_settings(*final(self), *old(self)),
    {
        match self.confirmation.take() {
            Some(asked) => match asked.action {
                Pending::Delete { mark_id, name } => {
                    if confirmed && self.session.is_some() {
                        Some(Effect::DeleteMark { mark_id, name })
                    } else {
                        None
                    }
                },
            },
            None => None,
        }
    }

    /// Opens the edit dialog on the selected mark (Ctrl+E), with the caret in its name.
    pub fn edit_selected(&mut self)
        ensures
            opens_edit(*old(self), *final(self)),
    {
        let chosen = launcher::selected_mark(self.marks.as_slice(), self.query.as_str(), self.selected);
        let form = match chosen {
            None => {
                return;
            },
            Some(mark) => EditForm {
                mark_id: mark.id.clone(),
                name: mark.name.clone(),
                content: mark.content.clone(),
                busy: false,
                error: None,
                focus_name: true,
            },
        };
        self.edit = Some(form);
    }

    /// Sends the change typed into the edit dialog, or says what is missing from it.
    ///
    /// The name is cut to what the server accepts rather than refused after a round trip, by
    /// the same rule the search box's names are.
    pub fn save_edit(&mut self) -> (r: Option<Effect>)
        ensures
            saves_edit(*old(self), *final(self), r),
    {
        let mut edit = match self.edit.take() {
            Some(edit) => edit,
            None => {
                return None;
            },
        };
        let trimmed = text::trim_str(edit.name.as_str());
        let name = text::first_chars(trimmed.as_str(), launcher::MAX_NAME_CHARS);
        let content = text::trim_str(edit.content.as_str());
        if name.as_str().is_empty() || content.as_str().is_empty() {
            edit.error = Some("A mark needs a name and something in it.".to_owned());
            self.edit = Some(edit);
            return None;
        }
        let mark_id = edit.mark_id.clone();
        edit.busy = true;
        edit.error = None;
        self.edit = Some(edit);
        if self.session.is_none() {
            return None;
        }
        Some(Effect::UpdateMark { mark_id, name, content })
    }

    /// Sends the credentials typed into the sign-in dialog, to the server it names, leaving the
    /// dialog up until the answer arrives.
    ///
    /// The address is settled first: one that is not an address is worth saying so about, and
    /// there is nothing to send it to. The field is left holding the address as the client will
    /// use it, so that what is on screen and what is being talked to are the same thing.
    pub fn authenticate(&mut self, mode: AuthMode) -> (r: Option<Effect>)
        ensures
            ({
                let username = text::trim(old(self).auth.username@);
                let password = old(self).auth.password@;
                if username.len() == 0 || password.len() == 0 {
                    &&& r is None
                    &&& opt_view(final(self).auth.error) == Some(
                        "A username and a password are both needed."@,
                    )
                    &&& final(self).auth.base_url == old(self).auth.base_url
                    &&& final(self).auth.busy == old(self).auth.busy
                    &&& final(self).notice == old(self).notice
                } else {
                    match launcher::instance_address_of(old(self).auth.base_url@) {
                        Err(why) => {
                            &&& r is None
                            &&& opt_view(final(self).auth.error) == Some(why)
                            &&& final(self).auth.base_url == old(self).auth.base_url
                            &&& final(self).auth.busy == old(self).auth.busy
                            &&& final(self).notice == old(self).notice
                        },
                        Ok(base) => {
                            &&& r matches Some(Effect::SignIn { mode: m, base_url, username: u, password: p })
                                && m == mode && base_url@ == base && u@ == username && p@ == password
                            &&& final(self).auth.base_url@ == base
                            &&& final(self).auth.busy
                            &&& final(self).auth.error is None
                            &&& final(self).notice is None
                        },
                    }
                }
            }),
            final(self).auth.username == old(self).auth.username,
            final(self).auth.password == old(self).auth.password,
            final(self).auth.focus_first_field == old(self).auth.focus_first_field,
            final(self).base_url == old(self).base_url,
            final(self).session == old(self).session,
            final(self).username == old(self).username,
            same_list(*final(self), *old(self)),
            same_dialogs(*final(self), *old(self)),
            same_settings(*final(self), *old(self)),
    {
        let username = text::trim_str(self.auth.username.as_str());
        let password = self.auth.password.clone();
        if username.as_str().is_empty() || password.as_str().is_empty() {
            self.auth.error = Some("A username and a password are both needed.".to_owned());
            return None;
        }
        let base = match launcher::instance_address(self.auth.base_url.as_str()) {
            Ok(base) => base,
            Err(why) => {
                self.auth.error = Some(why);
                return None;
            },
        };
        self.auth.base_url = base.clone();
        self.auth.busy = true;
        self.auth.error = None;
        self.notice = None;
        Some(Effect::SignIn { mode, base_url: base, username, password })
    }

    /// Puts the font order onto the window and writes it down, once it has been settled.
    fn settle_fonts(&mut self) -> (r: Effect)
        ensures
            fonts_become(*old(self), *final(self), fonts::names_of(old(self).config.fonts.priority@)),
            same_but_settings(*final(self), *old(self)),
            r == Effect::SaveFonts,
    {
        self.config.fonts.settle();
        Effect::SaveFonts
    }

    /// Moves the font at `index` by `delta` places in the order (one up or one down, from the
    /// panel), and writes the order down. Off either end of the order nothing moves.
    pub fn move_font(&mut self, index: usize, delta: isize) -> (r: Option<Effect>)
        requires
            index < old(self).config.fonts.priority.len() || !(0 <= index + delta
                < old(self).config.fonts.priority.len()),
        ensures
            moves_font(*old(self), *final(self), index as int, delta as int, r),
    {
        let len = self.config.fonts.priority.len();
        let target: usize = if delta < 0 {
            let back = (0 - (delta + 1)) as usize + 1;
            if back > index {
                return None;
            }
            index - back
        } else {
            let ahead = delta as usize;
            if index >= len || ahead >= len - index {
                return None;
            }
            index + ahead
        };
        if target >= len {
            return None;
        }
        let ghost before = self.config.fonts.priority@;
        if target != index {
            let mut held = String::new();
            self.config.fonts.priority.set_and_swap(index, &mut held);
            self.config.fonts.priority.set_and_swap(target, &mut held);
            self.config.fonts.priority.set_and_swap(index, &mut held);
            assert(self.config.fonts.priority@ =~= swapped(before, index as int, target as int));
        } else {
            assert(before =~= swapped(before, index as int, target as int));
        }
        assert(fonts::names_of(self.config.fonts.priority@) =~= swapped(
            fonts::names_of(before),
            index as int,
            target as int,
        ));
        Some(self.settle_fonts())
    }

    /// Takes the font at `index` out of the order, and writes the new one down.
    ///
    /// The last one cannot go: a font order with nothing in it is a window with no text in it.
    pub fn remove_font(&mut self, index: usize) -> (r: Option<Effect>)
        ensures
            removes_font(*old(self), *final(self), index as int, r),
    {
        let len = self.config.fonts.priority.len();
        if len <= 1 || index >= len {
            return None;
        }
        let ghost before = fonts::names_of(self.config.fonts.priority@);
        self.config.fonts.priority.remove(index);
        assert(fonts::names_of(self.config.fonts.priority@) =~= before.remove(index as int));
        Some(self.settle_fonts())
    }

    /// Puts `name` at the end of the order, and writes the new one down.
    ///
    /// Last rather than first: a font just added is one more to fall back to. A name the order
    /// holds already is left where it is, and one the window cannot find (neither a font egui
    /// carries nor a family this machine has) is refused, since it would be passed over every
    /// time the window is drawn.
    pub fn add_font(&mut self, name: &str) -> (r: Option<Effect>)
        ensures
            adds_font(*old(self), *final(self), name@, r),
    {
        let held = holds(self.config.fonts.priority.as_slice(), name);
        let known = fonts::bundled(name) || match &self.system_fonts {
            Some(families) => holds(families.as_slice(), name),
            None => false,
        };
        if held || !known {
            return None;
        }
        let ghost before = fonts::names_of(self.config.fonts.priority@);
        self.config.fonts.priority.push(name.to_owned());
        assert(fonts::names_of(self.config.fonts.priority@) =~= before.push(name@));
        Some(self.settle_fonts())
    }

    /// Asks for the font families this machine has, if they have not been read and are not
    /// being read.
    pub fn ensure_system_fonts(&mut self) -> (r: Option<Effect>)
        ensures
            old(self).system_fonts is None && !old(self).loading_fonts ==> final(self).loading_fonts
                && r == Some(Effect::LoadSystemFonts),
            !(old(self).system_fonts is None && !old(self).loading_fonts) ==> final(self).loading_fonts
                == old(self).loading_fonts && r is None,
            final(self).config == old(self).config,
            final(self).system_fonts == old(self).system_fonts,
            final(self).font_query == old(self).font_query,
            final(self).window_settings_changed == old(self).window_settings_changed,
            same_but_settings(*final(self), *old(self)),
    {
        if self.system_fonts.is_some() || self.loading_fonts {
            return None;
        }
        self.loading_fonts = true;
        Some(Effect::LoadSystemFonts)
    }

    /// Brings the window's settings within reach, puts them on the window and writes them down,
    /// once an edit of them is over.
    pub fn settle_window(&mut self) -> (r: Effect)
        ensures
            settles_window(*old(self), *final(self), old(self).config.window.fixed_size, Some(r)),
    {
        self.config.window.clamp();
        // A size has been asked for, so the panel can now say what to do if it does not arrive.
        self.window_settings_changed = true;
        Effect::SaveWindow
    }

    /// Keeps the window at one size, or frees it again, and writes the choice down.
    pub fn set_fixed_size(&mut self, fixed: bool) -> (r: Effect)
        ensures
            settles_window(*old(self), *final(self), fixed, Some(r)),
    {
        self.config.window.fixed_size = fixed;
        self.settle_window()
    }

    /// Brings a size that is being edited within reach and puts it on the window, without
    /// writing it down yet.
    pub fn resize_window(&mut self) -> (r: Effect)
        ensures
            resizes(*old(self), *final(self), Some(r)),
    {
        self.config.window.clamp();
        Effect::ApplyWindow
    }

    /// Carries out what one frame of the settings panel was asked to do.
    ///
    /// Logging out is the end of the session rather than a change to it, so nothing else asked
    /// for in the same frame is carried out. Otherwise one decision is applied, the first of: a
    /// font added, a font taken out, a font moved, the size fixed or freed, a size edit that is
    /// over, a size being edited.
    pub fn apply_panel(&mut self, outcome: PanelOutcome) -> (r: Option<Effect>)
        requires
            !outcome.log_out && outcome.added is None && outcome.removed is None ==> (
            outcome.moved matches Some((i, d)) ==> (i < old(self).config.fonts.priority.len() || !(0
                <= i + d < old(self).config.fonts.priority.len()))),
        ensures
            outcome.log_out ==> signed_out_of(*old(self), *final(self), None) && (r matches Some(e)
                && ends_session(*old(self), e)),
            !outcome.log_out ==> match outcome.added {
                Some(name) => adds_font(*old(self), *final(self), name@, r),
                None => match outcome.removed {
                    Some(i) => removes_font(*old(self), *final(self), i as int, r),
                    None => match outcome.moved {
                        Some((i, delta)) => moves_font(*old(self), *final(self), i as int, delta as int, r),
                        None => match outcome.fixed_size {
                            Some(fixed) => settles_window(*old(self), *final(self), fixed, r),
                            None => if outcome.keep {
                                settles_window(
                                    *old(self),
                                    *final(self),
                                    old(self).config.window.fixed_size,
                                    r,
                                )
                            } else if outcome.apply {
                                resizes(*old(self), *final(self), r)
                            } else {
                                *final(self) == *old(self) && r is None
                            },
                        },
                    },
                },
            },
    {
        if outcome.log_out {
            return Some(self.signed_out(None));
        }
        if let Some(name) = outcome.added {
            self.add_font(name.as_str())
        } else if let Some(index) = outcome.removed {
            self.remove_font(index)
        } else if let Some((index, delta)) = outcome.moved {
            self.move_font(index, delta)
        } else if let Some(fixed) = outcome.fixed_size {
            Some(self.set_fixed_size(fixed))
        } else if outcome.keep {
            Some(self.settle_window())
        } else if outcome.apply {
            Some(self.resize_window())
        } else {
            None
        }
    }

    /// Which keys this frame reads: the sign-in dialog's while there is no session, the panel's
    /// while it is up, the launcher's while nothing is in front of the list, and otherwise those
    /// of the dialog that is.
    pub fn key_scope(&self) -> (r: KeyScope)
        ensures
            r == if self.session is None {
                KeyScope::SignIn
            } else if self.config_open {
                KeyScope::Panel
            } else if self.edit is None && self.confirmation is None {
                KeyScope::Launcher
            } else {
                KeyScope::Dialog
            },
    {
        if self.session.is_none() {
            KeyScope::SignIn
        } else if self.config_open {
            KeyScope::Panel
        } else if self.edit.is_none() && self.confirmation.is_none() {
            KeyScope::Launcher
        } else {
            KeyScope::Dialog
        }
    }

    /// The keys of the sign-in dialog: whether Escape asked to close the window, and the sign-in
    /// Enter asks for, which is none while one is in flight.
    pub fn modal_keys(&self, enter: bool, escape: bool) -> (r: (bool, Option<AuthMode>))
        ensures
            r.0 == escape,
            r.1 == if enter && !self.auth.busy {
                Some(AuthMode::Login)
            } else {
                None
            },
    {
        let sign_in = if enter && !self.auth.busy {
            Some(AuthMode::Login)
        } else {
            None
        };
        (escape, sign_in)
    }

    /// The keys of the settings panel: either Ctrl+, or Escape closes it. Escape closes the panel
    /// rather than the window, because while it is up that is what the user is looking at.
    pub fn config_keys(&mut self, toggle: bool, escape: bool)
        ensures
            final(self).config_open == (old(self).config_open && !toggle && !escape),
            final(self).edit == old(self).edit,
            final(self).confirmation == old(self).confirmation,
            final(self).notice == old(self).notice,
            same_list(*final(self), *old(self)),
            same_session(*final(self), *old(self)),
            same_settings(*final(self), *old(self)),
    {
        if toggle || escape {
            self.config_open = false;
        }
    }

    /// What the edit dialog's keys ask for: Escape leaves it alone, and Enter saves unless a
    /// change is already in flight.
    pub fn edit_keys(&self, enter: bool, escape: bool) -> (r: Option<EditRequest>)
        ensures
            r == if self.edit is None {
                None
            } else if escape {
                Some(EditRequest::Cancel)
            } else if enter && !self.edit->0.busy {
                Some(EditRequest::Save)
            } else {
                None
            },
    {
        match &self.edit {
            None => None,
            Some(edit) => {
                if escape {
                    Some(EditRequest::Cancel)
                } else if enter && !edit.busy {
                    Some(EditRequest::Save)
                } else {
                    None
                }
            },
        }
    }

    /// Carries out what the edit dialog was asked: saving sends the change, and cancelling takes
    /// the dialog down.
    pub fn edit_request(&mut self, request: EditRequest) -> (r: Option<Effect>)
        ensures
            request == EditRequest::Save ==> saves_edit(*old(self), *final(self), r),
            request == EditRequest::Cancel ==> final(self).edit is None && r is None,
            final(self).config_open == old(self).config_open,
            final(self).confirmation == old(self).confirmation,
            final(self).notice == old(self).notice,
            same_list(*final(self), *old(self)),
            same_session(*final(self), *old(self)),
            same_settings(*final(self), *old(self)),
    {
        match request {
            EditRequest::Save => self.save_edit(),
            EditRequest::Cancel => {
                self.edit = None;
                None
            },
        }
    }

    /// Carries out the launcher keys pressed in one frame.
    ///
    /// Escape closes the window and Ctrl+, opens the panel, each on its own. Otherwise the keys
    /// are taken in turn: the arrows move the selection, Ctrl+D asks to delete the selected mark,
    /// Ctrl+E opens it for a change, Ctrl+Enter saves what is typed, and Enter opens the selected
    /// mark.
    pub fn launcher_keys(&mut self, keys: Keys) -> (r: Vec<Effect>)
        ensures
            keys.close ==> r@ == seq![Effect::Close] && *final(self) == *old(self),
            !keys.close && keys.config ==> r@.len() == 0 && final(self).config_open
                && final(self).edit == old(self).edit && final(self).confirmation == old(self).confirmation
                && final(self).notice == old(self).notice && same_list(*final(self), *old(self))
                && same_session(*final(self), *old(self)) && same_settings(*final(self), *old(self)),
            !keys.close && !keys.config ==> exists|
                a: MarksApp,
                b: MarksApp,
                c: MarksApp,
                d: MarksApp,
                e: MarksApp,
                saved: Option<Effect>,
                opened: Option<Effect>,
            |
                #![trigger key_steps(keys, *old(self), a, b, c, d, e, *final(self), saved, opened)]
                key_steps(keys, *old(self), a, b, c, d, e, *final(self), saved, opened) && r@
                    == effects_of(saved) + effects_of(opened),
    {
        if keys.close {
            let mut out: Vec<Effect> = Vec::new();
            out.push(Effect::Close);
            return out;
        }
        if keys.config {
            self.config_open = true;
            return Vec::new();
        }
        if keys.up {
            self.move_selection(-1);
        }
        let ghost a = *self;
        if keys.down {
            self.move_selection(1);
        }
        let ghost b = *self;
        if keys.remove {
            self.ask_to_delete();
        }
        let ghost c = *self;
        if keys.edit {
            self.edit_selected();
        }
        let ghost d = *self;
        let saved = if keys.save {
            self.save_query()
        } else {
            None
        };
        let ghost e = *self;
        let ghost saved_view = saved;
        let opened = if keys.open {
            self.open_selected()
        } else {
            None
        };
        let ghost opened_view = opened;
        let mut out: Vec<Effect> = Vec::new();
        if let Some(effect) = saved {
            out.push(effect);
        }
        if let Some(effect) = opened {
            out.push(effect);
        }
        assert(out@ =~= effects_of(saved_view) + effects_of(opened_view));
        assert(key_steps(keys, *old(self), a, b, c, d, e, *self, saved_view, opened_view));
        out
    }

    /// What the bottom line says: while the sign-in dialog has the keyboard, only that Escape
    /// closes the window; otherwise the Ctrl+Enter hint when there is something to save, who is
    /// signed in when that is known, and the launcher keys.
    pub fn footer(&self) -> (r: Footer)
        ensures
            self.session is None ==> r.save is None && r.signed_in_as is None && r.keys@
                == launcher::joined(seq!["Esc close"@], launcher::hint_separator()),
            self.session is Some ==> {
                &&& text::trim(self.query@).len() == 0 ==> r.save is None
                &&& text::trim(self.query@).len() > 0 ==> (r.save matches Some(h) && h@
                    == "Ctrl+Enter  save \""@ + launcher::shortened(
                    text::trim(self.query@),
                    launcher::HINT_CHARS as nat,
                ) + "\" as a new mark"@)
                &&& opt_view(r.signed_in_as) == match self.username {
                    Some(name) => Some("signed in as "@ + name@),
                    None => None::<Seq<char>>,
                }
                &&& r.keys@ == launcher::joined(launcher_key_hints(), launcher::hint_separator())
            },
    {
        if self.session.is_none() {
            let keys = launcher::hints(&["Esc close"]);
            proof {
                let only = seq!["Esc close"];
                assert(only.map_values(|s: &str| s@) =~= seq!["Esc close"@]);
            }
            return Footer { save: None, signed_in_as: None, keys };
        }
        let signed_in_as = match &self.username {
            Some(name) => Some(text::concat("signed in as ", name.as_str())),
            None => None,
        };
        let listed = [
            "\u{2191}\u{2193} move",
            "Enter open",
            "Ctrl+E change",
            "Ctrl+D delete",
            "Ctrl+, settings",
            "Esc close",
        ];
        let keys = launcher::hints(&listed);
        assert(listed@.map_values(|s: &str| s@) =~= launcher_key_hints());
        Footer { save: self.save_hint(), signed_in_as, keys }
    }

    /// What to say when the list has nothing to draw.
    pub fn empty_message(&self) -> (r: String)
        ensures
            self.session is None ==> r@ == "Sign in to load your marks."@,
            self.session is Some && text::trim(self.query@).len() == 0 ==> r@
                == "No marks yet - type a link and press Ctrl+Enter to save the first one."@,
            self.session is Some && text::trim(self.query@).len() > 0 ==> r@
                == "Nothing matches. Ctrl+Enter saves what you typed as a new mark."@,
    {
        if self.session.is_none() {
            "Sign in to load your marks.".to_owned()
        } else if text::trim_str(self.query.as_str()).as_str().is_empty() {
            "No marks yet - type a link and press Ctrl+Enter to save the first one.".to_owned()
        } else {
            "Nothing matches. Ctrl+Enter saves what you typed as a new mark.".to_owned()
        }
    }

    /// The footer's hint for Ctrl+Enter, shown only when there is something to save.
    ///
    /// Ctrl+Enter is the one action whose meaning depends on what is typed, so it is spelled out
    /// with the text it would save; the other keys are the same whatever is in the field.
    pub fn save_hint(&self) -> (r: Option<String>)
        ensures
            text::trim(self.query@).len() == 0 ==> r is None,
            text::trim(self.query@).len() > 0 ==> (r matches Some(h) && h@ == "Ctrl+Enter  save \""@
                + launcher::shortened(text::trim(self.query@), launcher::HINT_CHARS as nat)
                + "\" as a new mark"@),
    {
        let typed = text::trim_str(self.query.as_str());
        if typed.as_str().is_empty() {
            return None;
        }
        let short = launcher::shorten(typed.as_str(), launcher::HINT_CHARS);
        let start = text::concat("Ctrl+Enter  save \"", short.as_str());
        Some(text::concat(start.as_str(), "\" as a new mark"))
    }
}

/// The arrow keys never take the selection off the list: after a move, a list with something in
/// it has the selection on one of its rows.
pub proof fn lemma_move_stays_in_list(before: MarksApp, after: MarksApp, delta: int)
    requires
        moves_selection(before, after, delta),
        launcher::listed(before.marks@, before.query@) > 0,
    ensures
        after.selected < launcher::listed(after.marks@, after.query@),
{
}

/// Keeping the selection inside the list after it shrinks leaves it on a row, when there is one.
pub proof fn lemma_held_selection_in_list(selected: usize, count: nat)
    requires
        count > 0,
    ensures
        0 <= held_within(selected, count) < count,
        selected < count ==> held_within(selected, count) == selected,
{
}

/// A list filed by name reads in the order of the names in lower case.
pub proof fn lemma_filed_in_name_order(marks: Seq<Mark>, sorted: Seq<Mark>)
    requires
        filed_by_name(marks, sorted),
    ensures
        forall|k: int, l: int|
            0 <= k < l < sorted.len() ==> text::precedes(
                name_key(#[trigger] sorted[k]),
                name_key(#[trigger] sorted[l]),
            ) || name_key(sorted[k]) == name_key(sorted[l]),
{
    let order = choose|order: Seq<int>|
        #![trigger is_name_order(marks, order)]
        is_name_order(marks, order) && sorted.len() == order.len() && forall|k: int|
            0 <= k < order.len() ==> sorted[k] == marks[#[trigger] order[k]];
    assert forall|k: int, l: int| 0 <= k < l < sorted.len() implies text::precedes(
        name_key(#[trigger] sorted[k]),
        name_key(#[trigger] sorted[l]),
    ) || name_key(sorted[k]) == name_key(sorted[l]) by {
        assert(files_before(marks, order[k], order[l]));
    }
}

/// Filing a list by name keeps every mark in it: the one at each place of the list is somewhere
/// in the filed one.
pub proof fn lemma_filing_keeps_marks(marks: Seq<Mark>, sorted: Seq<Mark>, i: int)
    requires
        filed_by_name(marks, sorted),
        0 <= i < marks.len(),
    ensures
        sorted.contains(marks[i]),
{
    let order = choose|order: Seq<int>|
        #![trigger is_name_order(marks, order)]
        is_name_order(marks, order) && sorted.len() == order.len() && forall|k: int|
            0 <= k < order.len() ==> sorted[k] == marks[#[trigger] order[k]];
    assert(order.contains(i));
    let k = choose|k: int| 0 <= k < order.len() && order[k] == i;
    assert(sorted[k] == marks[i]);
}

/// A mark the server has just answered with is in the list afterwards.
pub proof fn lemma_settled_mark_is_listed(
    marks: Seq<Mark>,
    mark: Mark,
    query: Seq<char>,
    settled: Seq<Mark>,
    selected: int,
)
    requires
        settles(marks, mark, query, settled, selected),
    ensures
        settled.contains(mark),
{
    let with = with_mark(marks, mark);
    let at = first_held(marks, mark.id@, 0);
    lemma_first_held_bound(marks, mark.id@, 0);
    if at < marks.len() {
        assert(with[at] == mark);
        lemma_filing_keeps_marks(with, settled, at);
    } else {
        assert(with[marks.len() as int] == mark);
        lemma_filing_keeps_marks(with, settled, marks.len() as int);
    }
}

/// Where a mark is first held is inside the list or just past it.
proof fn lemma_first_held_bound(marks: Seq<Mark>, id: Seq<char>, i: int)
    requires
        0 <= i <= marks.len(),
    ensures
        i <= first_held(marks, id, i) <= marks.len(),
    decreases marks.len() - i,
{
    if i < marks.len() && marks[i].id@ != id {
        lemma_first_held_bound(marks, id, i + 1);
    }
}

/// Whether a mark is one other than the mark `id`.
pub open spec fn other_than(id: Seq<char>) -> spec_fn(Mark) -> bool {
    |m: Mark| m.id@ != id
}

/// Deleting a mark keeps every other mark, in the order the list had: what is left is the list
/// with exactly the marks of that id taken out.
pub proof fn lemma_deleting_keeps_order(marks: Seq<Mark>, id: Seq<char>)
    ensures
        without_id(marks, id) == marks.filter(other_than(id)),
    decreases marks.len(),
{
    reveal(Seq::filter);
    if marks.len() > 0 {
        lemma_deleting_keeps_order(marks.drop_last(), id);
    }
}

/// A deleted mark is gone from the list, and every other mark stays in it.
pub proof fn lemma_deleted_mark_gone(marks: Seq<Mark>, id: Seq<char>)
    ensures
        forall|k: int|
            0 <= k < without_id(marks, id).len() ==> (#[trigger] without_id(marks, id)[k]).id@ != id,
        forall|i: int|
            0 <= i < marks.len() && (#[trigger] marks[i]).id@ != id ==> without_id(marks, id).contains(
                marks[i],
            ),
    decreases marks.len(),
{
    if marks.len() > 0 {
        let rest = marks.drop_last();
        lemma_deleted_mark_gone(rest, id);
        let kept = without_id(rest, id);
        if marks.last().id@ != id {
            let now = kept.push(marks.last());
            assert forall|k: int| 0 <= k < now.len() implies (#[trigger] now[k]).id@ != id by {
                if k < kept.len() {
                    assert(now[k] == kept[k]);
                }
            }
            assert forall|i: int| 0 <= i < marks.len() && (#[trigger] marks[i]).id@ != id implies now.contains(
                marks[i],
            ) by {
                if i < marks.len() - 1 {
                    assert(rest[i] == marks[i]);
                    let k = choose|k: int| 0 <= k < kept.len() && kept[k] == rest[i];
                    assert(now[k] == marks[i]);
                } else {
                    assert(now[kept.len() as int] == marks[i]);
                }
            }
        } else {
            assert forall|i: int| 0 <= i < marks.len() && (#[trigger] marks[i]).id@ != id implies kept.contains(
                marks[i],
            ) by {
                assert(i < marks.len() - 1);
                assert(rest[i] == marks[i]);
            }
        }
    }
}

/// The panel never offers a font the order already holds: everything it lists is one more to add.
pub proof fn lemma_offered_fonts_are_new(system: Seq<Seq<char>>, priority: Seq<Seq<char>>, query: Seq<char>)
    ensures
        ({
            let candidates = font_candidates(system);
            let scores = candidate_scores(candidates, priority, query);
            forall|order: Seq<int>, k: int|
                launcher::is_ranked(scores, order) && 0 <= k < order.len() ==> !priority.contains(
                    candidates[#[trigger] order[k]],
                )
        }),
{
    let candidates = font_candidates(system);
    let scores = candidate_scores(candidates, priority, query);
    assert forall|order: Seq<int>, k: int|
        launcher::is_ranked(scores, order) && 0 <= k < order.len() implies !priority.contains(
        candidates[#[trigger] order[k]],
    ) by {
        assert(scores[order[k]] is Some);
    }
}

} // verus!
