//! The settings the window runs by.
//!
//! They live in a TOML file under the config directory, which the panel behind Ctrl+, writes.
//! Nothing here is worth refusing to open a window over: a file that is missing, unreadable or
//! nonsense leaves the client running on its defaults, and whatever a file says is held to what
//! the window can actually be before it is used.
use std::path::PathBuf;
use vstd::prelude::*;
use crate::fonts;
use crate::text;

verus! {

/// A path on this machine, carried through unread.
#[verifier::external_type_specification]
#[verifier::external_body]
pub struct ExPathBuf(std::path::PathBuf);

/// How narrow the window may be asked to be: the floor it has always had, so that no setting can
/// make it too small to draw the list in.
pub const MIN_WIDTH: u32 = 420;

/// How short it may be asked to be. See [`MIN_WIDTH`].
pub const MIN_HEIGHT: u32 = 240;

/// How large it may be asked to be: a guard against a mistyped number rather than a limit anyone
/// should meet.
pub const MAX_SIDE: u32 = 16384;

/// `v` held to the range from `low` to `high`.
pub open spec fn clamped(v: u32, low: u32, high: u32) -> u32 {
    if v < low {
        low
    } else if v > high {
        high
    } else {
        v
    }
}

/// What the window is allowed to be: how big it opens, and whether that is also how big it
/// stays.
pub struct Window {
    /// Whether the window keeps the size below instead of being resizable.
    pub fixed_size: bool,
    /// How wide the window opens, in egui's points.
    pub width: u32,
    /// How tall the window opens. See [`Window::width`].
    pub height: u32,
}

impl Default for Window {
    /// The size the window has always opened at: a launcher's panel, free to be resized.
    fn default() -> (r: Self)
        ensures
            !r.fixed_size,
            r.width == 620,
            r.height == 440,
    {
        Window { fixed_size: false, width: 620, height: 440 }
    }
}

/// How the window is held to its size: whether it can be resized, the size it is asked to be,
/// the smallest it may be, and the largest when there is one.
pub struct Limits {
    pub resizable: bool,
    pub size: (u32, u32),
    pub min: (u32, u32),
    pub max: Option<(u32, u32)>,
}

impl Window {
    /// How the window is held to these settings, both when it is opened and when the panel
    /// changes them on a window that is up.
    ///
    /// A window that keeps its size is also one that cannot be resized, and it is held at both
    /// ends rather than by "not resizable" alone, which a window manager is free to ignore. One
    /// that is free has no largest size, and the floor the list needs to be drawn in.
    pub fn limits(&self) -> (r: Limits)
        ensures
            r.resizable == !self.fixed_size,
            r.size == (self.width, self.height),
            self.fixed_size ==> r.min == (self.width, self.height) && r.max == Some((self.width, self.height)),
            !self.fixed_size ==> r.min == (MIN_WIDTH, MIN_HEIGHT) && r.max is None,
    {
        let size = (self.width, self.height);
        if self.fixed_size {
            Limits { resizable: false, size, min: size, max: Some(size) }
        } else {
            Limits { resizable: true, size, min: (MIN_WIDTH, MIN_HEIGHT), max: None }
        }
    }

    /// Whether the numbers are something a window can actually be.
    pub open spec fn within_reach(&self) -> bool {
        MIN_WIDTH <= self.width <= MAX_SIDE && MIN_HEIGHT <= self.height <= MAX_SIDE
    }

    /// Holds the numbers to something a window can actually be.
    ///
    /// A file is written by hand, so it can say anything: a size under the floor would hide the
    /// list, and one mistyped extra digit would ask for a window larger than any display.
    pub fn clamp(&mut self)
        ensures
            final(self).width == clamped(old(self).width, MIN_WIDTH, MAX_SIDE),
            final(self).height == clamped(old(self).height, MIN_HEIGHT, MAX_SIDE),
            final(self).fixed_size == old(self).fixed_size,
    {
        if self.width < MIN_WIDTH {
            self.width = MIN_WIDTH;
        } else if self.width > MAX_SIDE {
            self.width = MAX_SIDE;
        }
        if self.height < MIN_HEIGHT {
            self.height = MIN_HEIGHT;
        } else if self.height > MAX_SIDE {
            self.height = MAX_SIDE;
        }
    }
}

/// The fonts the window draws with, in the order it asks them.
pub struct Fonts {
    /// The fonts to draw with, most wanted first. A name is one of the fonts egui carries or a
    /// family this machine has.
    pub priority: Vec<String>,
}

impl Default for Fonts {
    fn default() -> (r: Self)
        ensures
            fonts::names_of(r.priority@) == fonts::available_fonts(),
    {
        Fonts { priority: fonts::default_priority() }
    }
}

/// The names of `list` worth drawing with, first occurrence first: each trimmed, the empty ones
/// left out, and each named once.
pub open spec fn kept_names(list: Seq<Seq<char>>) -> Seq<Seq<char>>
    decreases list.len(),
{
    if list.len() == 0 {
        seq![]
    } else {
        let kept = kept_names(list.drop_last());
        let name = text::trim(list.last());
        if name.len() == 0 || kept.contains(name) {
            kept
        } else {
            kept.push(name)
        }
    }
}

/// A font order held to names worth drawing with, and the default one when that leaves nothing.
pub open spec fn settled_names(list: Seq<Seq<char>>) -> Seq<Seq<char>> {
    if kept_names(list).len() == 0 {
        fonts::available_fonts()
    } else {
        kept_names(list)
    }
}

impl Fonts {
    /// Holds the list to names worth drawing with: each named once, nothing empty, and never
    /// nothing at all.
    ///
    /// A name the client does not carry is left where it is rather than dropped, because it may
    /// well be a font on this machine. A list that leaves nothing at all becomes the default,
    /// because a family with no fonts in it is a window with no text in it.
    pub fn settle(&mut self)
        ensures
            fonts::names_of(final(self).priority@) == settled_names(
                fonts::names_of(old(self).priority@),
            ),
    {
        let ghost given = fonts::names_of(self.priority@);
        let mut kept: Vec<String> = Vec::new();
        let mut i: usize = 0;
        while i < self.priority.len()
            invariant
                i <= self.priority.len(),
                given == fonts::names_of(self.priority@),
                fonts::names_of(kept@) == kept_names(given.take(i as int)),
            decreases self.priority.len() - i,
        {
            let name = text::trim_str(self.priority[i].as_str());
            assert(given.take(i + 1).drop_last() =~= given.take(i as int));
            let mut held = false;
            let mut k: usize = 0;
            while k < kept.len()
                invariant
                    k <= kept.len(),
                    held == fonts::names_of(kept@).take(k as int).contains(name@),
                decreases kept.len() - k,
            {
                let ghost before = fonts::names_of(kept@).take(k as int);
                let ghost after = fonts::names_of(kept@).take(k + 1);
                assert(after =~= before.push(kept@[k as int]@));
                if text::same_text(kept[k].as_str(), name.as_str()) {
                    held = true;
                }
                proof {
                    if before.contains(name@) {
                        let j = choose|j: int| 0 <= j < before.len() && before[j] == name@;
                        assert(after[j] == name@);
                    }
                    if kept@[k as int]@ == name@ {
                        assert(after[k as int] == name@);
                    }
                    if !before.contains(name@) && kept@[k as int]@ != name@ {
                        assert forall|j: int| 0 <= j < after.len() implies after[j] != name@ by {
                            if j < k {
                                assert(after[j] == before[j]);
                            }
                        }
                    }
                }
                k += 1;
            }
            assert(fonts::names_of(kept@).take(k as int) =~= fonts::names_of(kept@));
            if !name.as_str().is_empty() && !held {
                kept.push(name);
                assert(fonts::names_of(kept@) =~= kept_names(given.take(i + 1)));
            }
            i += 1;
        }
        assert(given.take(i as int) =~= given);
        if kept.len() == 0 {
            self.priority = fonts::default_priority();
        } else {
            self.priority = kept;
        }
    }
}

/// Everything the client can be configured with, and the file it was read from.
pub struct Config {
    /// What the window is allowed to be.
    pub window: Window,
    /// What it draws with.
    pub fonts: Fonts,
    /// The file these were read from, and are written back to; `None` when the system has no
    /// config directory to speak of, which leaves the window writing nothing anywhere.
    pub path: Option<PathBuf>,
}

impl Default for Config {
    fn default() -> (r: Self)
        ensures
            !r.window.fixed_size,
            r.window.width == 620,
            r.window.height == 440,
            fonts::names_of(r.fonts.priority@) == fonts::available_fonts(),
            r.path is None,
    {
        Config { window: Window::default(), fonts: Fonts::default(), path: None }
    }
}

impl Config {
    /// Holds the settings to what the window can actually do.
    ///
    /// A file is written by hand as often as by the panel, so it can ask for a window that is
    /// too small to draw in, or name a font list with nothing in it.
    pub fn settled(self) -> (r: Self)
        ensures
            r.window.width == clamped(self.window.width, MIN_WIDTH, MAX_SIDE),
            r.window.height == clamped(self.window.height, MIN_HEIGHT, MAX_SIDE),
            r.window.fixed_size == self.window.fixed_size,
            fonts::names_of(r.fonts.priority@) == settled_names(fonts::names_of(self.fonts.priority@)),
            r.path == self.path,
            r.window.within_reach(),
            usable_order(fonts::names_of(r.fonts.priority@)),
    {
        proof {
            lemma_settled_order_usable(fonts::names_of(self.fonts.priority@));
        }
        let mut settled = self;
        settled.window.clamp();
        settled.fonts.settle();
        settled
    }

    /// The settings for the file at `path`, from what was read out of it: `read` is the window
    /// and the fonts the file set out, each with its defaults for what it left unsaid, and `None`
    /// when there was no file or it was not a settings file.
    ///
    /// Whatever the file said, what comes back is a window that can be drawn.
    pub fn load_from(read: Option<(Window, Fonts)>, path: PathBuf) -> (r: Self)
        ensures
            r.path == Some(path),
            r.window.within_reach(),
            usable_order(fonts::names_of(r.fonts.priority@)),
            match read {
                Some((window, fonts)) => {
                    &&& r.window.width == clamped(window.width, MIN_WIDTH, MAX_SIDE)
                    &&& r.window.height == clamped(window.height, MIN_HEIGHT, MAX_SIDE)
                    &&& r.window.fixed_size == window.fixed_size
                    &&& fonts::names_of(r.fonts.priority@) == settled_names(
                        fonts::names_of(fonts.priority@),
                    )
                },
                None => {
                    &&& !r.window.fixed_size
                    &&& r.window.width == 620
                    &&& r.window.height == 440
                    &&& fonts::names_of(r.fonts.priority@) == fonts::available_fonts()
                },
            },
            match read {
                Some((asked, listed)) => asked.within_reach() && usable_order(
                    fonts::names_of(listed.priority@),
                ) ==> r.window == asked && fonts::names_of(r.fonts.priority@) == fonts::names_of(
                    listed.priority@,
                ),
                None => true,
            },
    {
        proof {
            if read is Some {
                let given = read->0;
                if given.0.within_reach() && usable_order(fonts::names_of(given.1.priority@)) {
                    lemma_settings_read_back(given.0, fonts::names_of(given.1.priority@));
                }
            }
        }
        let config = match read {
            Some((window, fonts)) => Config { window, fonts, path: Some(path) },
            None => {
                let defaults = Config::default();
                Config { window: defaults.window, fonts: defaults.fonts, path: Some(path) }
            },
        };
        proof {
            if read is None {
                assert(kept_names(fonts::available_fonts()) == fonts::available_fonts()) by {
                    lemma_defaults_are_settled();
                }
            }
        }
        config.settled()
    }

    /// Where these settings came from, for the panel to show.
    pub fn path(&self) -> (r: Option<&PathBuf>)
        ensures
            match (r, self.path) {
                (Some(a), Some(b)) => *a == b,
                (None, None) => true,
                _ => false,
            },
    {
        self.path.as_ref()
    }
}

/// The default font order is already settled: it names four different fonts, none empty.
pub proof fn lemma_defaults_are_settled()
    ensures
        kept_names(fonts::available_fonts()) == fonts::available_fonts(),
{
    let f = fonts::available_fonts();
    lemma_trim_plain(f[0]);
    lemma_trim_plain(f[1]);
    lemma_trim_plain(f[2]);
    lemma_trim_plain(f[3]);
    assert(f.drop_last() =~= f.take(3));
    assert(f.take(3).drop_last() =~= f.take(2));
    assert(f.take(2).drop_last() =~= f.take(1));
    assert(f.take(1).drop_last() =~= f.take(0));
    assert(kept_names(f.take(0)) =~= seq![]);
    assert(kept_names(f.take(1)) =~= seq![f[0]]);
    assert(f[1] != f[0]);
    assert(kept_names(f.take(2)) =~= seq![f[0], f[1]]);
    assert(f[2] != f[0] && f[2] != f[1]);
    assert(kept_names(f.take(3)) =~= seq![f[0], f[1], f[2]]);
    assert(f[3] != f[0] && f[3] != f[1] && f[3] != f[2]);
    assert(kept_names(f) =~= f);
}

/// A name with no whitespace at either end is its own trimmed form.
pub proof fn lemma_trim_plain(s: Seq<char>)
    requires
        s.len() > 0,
        !text::is_ws(s[0]),
        !text::is_ws(s.last()),
    ensures
        text::trim(s) == s,
{
    assert(text::trimmed_start(s) == 0);
    assert(s.skip(0) =~= s);
    assert(text::trimmed_end(s) == s.len());
    assert(s.take(s.len() as int) =~= s);
}

/// Whether a font order is one worth drawing with: something in it, every name in it trimmed
/// and not empty, and no name twice.
pub open spec fn usable_order(list: Seq<Seq<char>>) -> bool {
    &&& list.len() > 0
    &&& forall|i: int| 0 <= i < list.len() ==> (#[trigger] list[i]).len() > 0 && text::trim(list[i]) == list[i]
    &&& forall|i: int, j: int| 0 <= i < j < list.len() ==> #[trigger] list[i] != #[trigger] list[j]
}

/// The names kept of a list are trimmed, not empty, and each there once.
proof fn lemma_kept_names_clean(list: Seq<Seq<char>>)
    ensures
        forall|i: int|
            0 <= i < kept_names(list).len() ==> (#[trigger] kept_names(list)[i]).len() > 0
                && text::trim(kept_names(list)[i]) == kept_names(list)[i],
        forall|i: int, j: int|
            0 <= i < j < kept_names(list).len() ==> #[trigger] kept_names(list)[i]
                != #[trigger] kept_names(list)[j],
    decreases list.len(),
{
    if list.len() > 0 {
        let kept = kept_names(list.drop_last());
        lemma_kept_names_clean(list.drop_last());
        text::lemma_trim_idempotent(list.last());
        let name = text::trim(list.last());
        if !(name.len() == 0 || kept.contains(name)) {
            let now = kept.push(name);
            assert(kept_names(list) == now);
            assert forall|i: int| 0 <= i < now.len() implies (#[trigger] now[i]).len() > 0
                && text::trim(now[i]) == now[i] by {
                if i < kept.len() {
                    assert(now[i] == kept[i]);
                }
            }
            assert forall|i: int, j: int| 0 <= i < j < now.len() implies #[trigger] now[i]
                != #[trigger] now[j] by {
                if j == kept.len() {
                    assert(now[i] == kept[i]);
                    if kept[i] == name {
                        assert(kept.contains(name));
                    }
                } else {
                    assert(now[i] == kept[i] && now[j] == kept[j]);
                }
            }
        }
    }
}

/// A list that is already clean keeps every name, in its order.
proof fn lemma_clean_list_kept(list: Seq<Seq<char>>)
    requires
        forall|i: int| 0 <= i < list.len() ==> (#[trigger] list[i]).len() > 0 && text::trim(list[i]) == list[i],
        forall|i: int, j: int| 0 <= i < j < list.len() ==> #[trigger] list[i] != #[trigger] list[j],
    ensures
        kept_names(list) == list,
    decreases list.len(),
{
    if list.len() > 0 {
        let rest = list.drop_last();
        lemma_clean_list_kept(rest);
        assert(!rest.contains(list.last())) by {
            if rest.contains(list.last()) {
                let i = choose|i: int| 0 <= i < rest.len() && rest[i] == list.last();
                assert(list[i] == list[list.len() - 1]);
            }
        }
        assert(rest.push(list.last()) =~= list);
    }
}

/// Whatever a settings file names, the font order the window draws in is usable: never empty, no
/// name blank or padded, no name twice.
pub proof fn lemma_settled_order_usable(list: Seq<Seq<char>>)
    ensures
        usable_order(settled_names(list)),
{
    lemma_kept_names_clean(list);
    if kept_names(list).len() == 0 {
        lemma_defaults_are_settled();
        lemma_kept_names_clean(fonts::available_fonts());
    }
}

/// Settling a font order that is settled changes nothing.
pub proof fn lemma_settle_twice(list: Seq<Seq<char>>)
    ensures
        settled_names(settled_names(list)) == settled_names(list),
{
    lemma_settled_order_usable(list);
    lemma_clean_list_kept(settled_names(list));
}

/// Settings read back are the settings written: a window the client can be and a usable font
/// order, as the panel writes them, come out of loading exactly as they went in.
pub proof fn lemma_settings_read_back(window: Window, names: Seq<Seq<char>>)
    requires
        window.within_reach(),
        usable_order(names),
    ensures
        clamped(window.width, MIN_WIDTH, MAX_SIDE) == window.width,
        clamped(window.height, MIN_HEIGHT, MAX_SIDE) == window.height,
        settled_names(names) == names,
{
    lemma_clean_list_kept(names);
}

/// A number held to a range is inside it, and holding it again changes nothing.
pub proof fn lemma_clamped_within(v: u32, low: u32, high: u32)
    requires
        low <= high,
    ensures
        low <= clamped(v, low, high) <= high,
        clamped(clamped(v, low, high), low, high) == clamped(v, low, high),
        low <= v <= high ==> clamped(v, low, high) == v,
{
}

} // verus!
