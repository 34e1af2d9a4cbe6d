//! Which favicons the list has asked for, and what became of each.
//!
//! A row asks for its mark's favicon every time it is drawn. The first time, a mark the server
//! stored a favicon for has it queued for download and shows a spinner until it arrives; a mark
//! with none is remembered as having none, so that the row does not ask again every frame. The
//! downloads themselves, and the textures they become, belong to the program around this.
use vstd::prelude::*;
use crate::mark::Mark;
use crate::text;

verus! {

/// What the list can draw for one mark's favicon.
#[derive(Clone, Copy, Debug, PartialEq, Eq, Structural)]
pub enum IconState {
    /// Queued or in flight; the row is drawn again when the result arrives.
    Loading,
    /// Downloaded and ready to draw.
    Ready,
    /// Nothing to draw: the mark has no stored favicon, or fetching it failed.
    Missing,
}

/// The favicons the list has seen, by mark id.
pub struct IconCache {
    entries: Vec<(String, IconState)>,
}

/// What `entries` hold for the mark `id`: the last word on it, or nothing.
pub open spec fn state_in(entries: Seq<(String, IconState)>, id: Seq<char>) -> Option<IconState>
    decreases entries.len(),
{
    if entries.len() == 0 {
        None
    } else if entries.last().0@ == id {
        Some(entries.last().1)
    } else {
        state_in(entries.drop_last(), id)
    }
}

/// `entries` without anything about the mark `id`, in the order they were in.
fn without(entries: Vec<(String, IconState)>, id: &str) -> (r: Vec<(String, IconState)>)
    ensures
        forall|k: Seq<char>|
            #![trigger state_in(r@, k)]
            state_in(r@, k) == if k == id@ {
                None
            } else {
                state_in(entries@, k)
            },
{
    let ghost given = entries@;
    let n = entries.len();
    let mut rest = entries;
    let mut kept: Vec<(String, IconState)> = Vec::new();
    let mut i: usize = 0;
    while i < n
        invariant
            i <= n,
            n == given.len(),
            rest@ == given.skip(i as int),
            forall|k: Seq<char>|
                #![trigger state_in(kept@, k)]
                state_in(kept@, k) == if k == id@ {
                    None
                } else {
                    state_in(given.take(i as int), k)
                },
        decreases n - i,
    {
        let entry = rest.remove(0);
        assert(entry == given[i as int]);
        assert(rest@ =~= given.skip(i + 1));
        assert(given.take(i + 1).drop_last() =~= given.take(i as int));
        let ghost before = kept@;
        if !text::same_text(entry.0.as_str(), id) {
            kept.push(entry);
            assert(kept@.drop_last() =~= before);
        }
        i += 1;
        assert forall|k: Seq<char>| #[trigger] state_in(kept@, k) == if k == id@ {
            None
        } else {
            state_in(given.take(i as int), k)
        } by {
            assert(state_in(before, k) == if k == id@ {
                None
            } else {
                state_in(given.take(i - 1), k)
            });
        }
    }
    assert(given.take(i as int) =~= given);
    kept
}

impl IconCache {
    /// What the list holds for the mark `id`, if it has asked about it.
    pub closed spec fn state_of(&self, id: Seq<char>) -> Option<IconState> {
        state_in(self.entries@, id)
    }

    /// A cache that has seen no favicons yet.
    pub fn new() -> (r: IconCache)
        ensures
            forall|k: Seq<char>| #[trigger] r.state_of(k) is None,
    {
        IconCache { entries: Vec::new() }
    }

    /// What is held for the mark `id`, if anything.
    fn lookup(&self, id: &str) -> (r: Option<IconState>)
        ensures
            r == self.state_of(id@),
    {
        let mut j = self.entries.len();
        assert(self.entries@.take(j as int) =~= self.entries@);
        while j > 0 && !text::same_text(self.entries[j - 1].0.as_str(), id)
            invariant
                j <= self.entries@.len(),
                state_in(self.entries@, id@) == state_in(self.entries@.take(j as int), id@),
            decreases j,
        {
            assert(self.entries@.take(j as int).drop_last() =~= self.entries@.take(j - 1));
            j -= 1;
        }
        if j == 0 {
            None
        } else {
            assert(self.entries@.take(j as int).last() == self.entries@[j - 1]);
            Some(self.entries[j - 1].1)
        }
    }

    /// Sets what is held for the mark `id`.
    fn put(&mut self, id: &str, state: IconState)
        ensures
            forall|k: Seq<char>|
                #![trigger final(self).state_of(k)]
                final(self).state_of(k) == if k == id@ {
                    Some(state)
                } else {
                    old(self).state_of(k)
                },
    {
        let mut entries: Vec<(String, IconState)> = Vec::new();
        std::mem::swap(&mut entries, &mut self.entries);
        let mut kept = without(entries, id);
        let ghost before = kept@;
        kept.push((id.to_owned(), state));
        assert(kept@.drop_last() =~= before);
        assert forall|k: Seq<char>| #[trigger] state_in(kept@, k) == if k == id@ {
            Some(state)
        } else {
            state_in(old(self).entries@, k)
        } by {
            assert(state_in(before, k) == if k == id@ {
                None
            } else {
                state_in(old(self).entries@, k)
            });
        }
        self.entries = kept;
    }

    /// The state to draw for `mark`, and whether its favicon is to be downloaded now: the first
    /// time it is asked for, when the server stored one for it.
    pub fn icon(&mut self, mark: &Mark) -> (r: (IconState, bool))
        ensures
            old(self).state_of(mark.id@) matches Some(held) ==> r == (held, false) && forall|
                k: Seq<char>,
            | #[trigger] final(self).state_of(k) == old(self).state_of(k),
            old(self).state_of(mark.id@) is None ==> r.1 == mark.icon_id is Some && r.0 == (if mark.icon_id is Some {
                IconState::Loading
            } else {
                IconState::Missing
            }) && forall|k: Seq<char>|
                #![trigger final(self).state_of(k)]
                final(self).state_of(k) == if k == mark.id@ {
                    Some(r.0)
                } else {
                    old(self).state_of(k)
                },
    {
        if let Some(held) = self.lookup(mark.id.as_str()) {
            return (held, false);
        }
        let queue = mark.icon_id.is_some();
        let state = if queue {
            IconState::Loading
        } else {
            IconState::Missing
        };
        self.put(mark.id.as_str(), state);
        (state, queue)
    }

    /// Takes in how the download of the mark `mark_id`'s favicon ended: with an image to draw, or
    /// with nothing.
    pub fn store(&mut self, mark_id: &str, arrived: bool)
        ensures
            forall|k: Seq<char>|
                #![trigger final(self).state_of(k)]
                final(self).state_of(k) == if k == mark_id@ {
                    Some(
                        if arrived {
                            IconState::Ready
                        } else {
                            IconState::Missing
                        },
                    )
                } else {
                    old(self).state_of(k)
                },
    {
        let state = if arrived {
            IconState::Ready
        } else {
            IconState::Missing
        };
        self.put(mark_id, state);
    }

    /// Whether the mark `mark_id`'s favicon has arrived.
    pub fn is_ready(&self, mark_id: &str) -> (r: bool)
        ensures
            r == (self.state_of(mark_id@) == Some(IconState::Ready)),
    {
        match self.lookup(mark_id) {
            Some(IconState::Ready) => true,
            _ => false,
        }
    }

    /// Drops a deleted mark's favicon, so a long session does not pile them up.
    pub fn forget(&mut self, mark_id: &str)
        ensures
            forall|k: Seq<char>|
                #![trigger final(self).state_of(k)]
                final(self).state_of(k) == if k == mark_id@ {
                    None
                } else {
                    old(self).state_of(k)
                },
    {
        let mut entries: Vec<(String, IconState)> = Vec::new();
        std::mem::swap(&mut entries, &mut self.entries);
        self.entries = without(entries, mark_id);
    }
}

/// How large a favicon is decoded: they arrive between 16 and 64 pixels wide and are drawn at
/// 20, so they are brought to fit a square this size, sharp enough and cheap to draw.
pub const ICON_PIXELS: u32 = 32;

/// A decoded favicon: its size, and its pixels as red, green, blue and alpha bytes, row by row.
pub struct IconImage {
    pub width: u32,
    pub height: u32,
    pub rgba: Vec<u8>,
}

/// What the `image` crate makes of `bytes` brought to fit a square `side` pixels wide: the size
/// and the RGBA pixels of the picture, or nothing when the bytes are no picture it can read.
pub uninterp spec fn decoded(bytes: Seq<u8>, side: u32) -> Option<(u32, u32, Seq<u8>)>;

/// Decodes `bytes` with `image::load_from_memory`, which recognises the format from the bytes
/// themselves, shrinks the picture with `DynamicImage::thumbnail` to fit `side` by `side` keeping
/// its aspect ratio, and reads it out with `DynamicImage::to_rgba8`.
///
/// Claimed of them: the answer depends on the bytes and the side alone, and is nothing exactly
/// when the decoder refuses the bytes. What the pixels are is left to the name [`decoded`].
#[verifier::external_body]
fn decode_to_fit(bytes: &[u8], side: u32) -> (r: Option<(u32, u32, Vec<u8>)>)
    ensures
        match r {
            Some((width, height, pixels)) => decoded(bytes@, side) == Some((width, height, pixels@)),
            None => decoded(bytes@, side) is None,
        },
{
    match image::load_from_memory(bytes) {
        Ok(picture) => {
            let rgba = picture.thumbnail(side, side).to_rgba8();
            Some((rgba.width(), rgba.height(), rgba.into_raw()))
        },
        Err(_) => None,
    }
}

/// Decodes the bytes the server serves for a favicon into pixels to draw.
///
/// The server passes the bytes through as it stored them, so the format is recognised here from
/// the bytes themselves: PNG, ICO, JPEG, GIF or WebP. A favicon that cannot be decoded is simply
/// absent; the mark stays usable.
pub fn decode(bytes: &[u8]) -> (r: Option<IconImage>)
    ensures
        match r {
            Some(image) => decoded(bytes@, ICON_PIXELS) == Some((image.width, image.height, image.rgba@)),
            None => decoded(bytes@, ICON_PIXELS) is None,
        },
{
    match decode_to_fit(bytes, ICON_PIXELS) {
        Some((width, height, rgba)) => Some(IconImage { width, height, rgba }),
        None => None,
    }
}

} // verus!
