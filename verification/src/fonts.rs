//! The fonts the window draws with, and the order it asks them in.
//!
//! egui carries four fonts, and draws text with the first of them that has the character being
//! drawn. That order is a setting (`Fonts::priority`), because it changes the look of the whole
//! window: Hack is a monospace font, Ubuntu-Light is not, and the first one is what nearly all
//! of the text ends up in. It also decides which characters can be drawn at all: egui's
//! proportional font has no arrows in it, and Hack, which the default order starts with, does.
use vstd::prelude::*;
use crate::text;

verus! {

/// The names of a list of strings.
pub open spec fn names_of(v: Seq<String>) -> Seq<Seq<char>> {
    v.map_values(|s: String| s@)
}

/// The fonts egui carries, by the names egui knows them by, in the order the window draws in
/// unless the settings say otherwise.
///
/// Hack first, which is the monospace font and the only one of the four with arrows in it. The
/// others follow it rather than being left out, so that the characters Hack does not have (emoji,
/// and the symbols egui's icon font is there for) are still drawn.
pub open spec fn available_fonts() -> Seq<Seq<char>> {
    seq![
        seq!['H', 'a', 'c', 'k'],
        seq!['U', 'b', 'u', 'n', 't', 'u', '-', 'L', 'i', 'g', 'h', 't'],
        seq!['N', 'o', 't', 'o', 'E', 'm', 'o', 'j', 'i', '-', 'R', 'e', 'g', 'u', 'l', 'a', 'r'],
        seq!['e', 'm', 'o', 'j', 'i', '-', 'i', 'c', 'o', 'n', '-', 'f', 'o', 'n', 't'],
    ]
}

/// The fonts egui carries, and so the ones a name in the order can be drawn with without reading
/// anything off the machine.
pub fn available() -> (r: Vec<String>)
    ensures
        names_of(r@) == available_fonts(),
{
    let mut r: Vec<String> = Vec::new();
    r.push(text::string_of(&['H', 'a', 'c', 'k']));
    r.push(text::string_of(&['U', 'b', 'u', 'n', 't', 'u', '-', 'L', 'i', 'g', 'h', 't']));
    r.push(
        text::string_of(
            &['N', 'o', 't', 'o', 'E', 'm', 'o', 'j', 'i', '-', 'R', 'e', 'g', 'u', 'l', 'a', 'r'],
        ),
    );
    r.push(
        text::string_of(&['e', 'm', 'o', 'j', 'i', '-', 'i', 'c', 'o', 'n', '-', 'f', 'o', 'n', 't']),
    );
    assert(names_of(r@) =~= available_fonts());
    r
}

/// The order the window draws in unless the settings say otherwise, as the settings hold it.
pub fn default_priority() -> (r: Vec<String>)
    ensures
        names_of(r@) == available_fonts(),
{
    available()
}

/// Whether `name` is one of the fonts egui carries, and so needs nothing read to use.
pub fn bundled(name: &str) -> (r: bool)
    ensures
        r == available_fonts().contains(name@),
{
    let fonts = available();
    let mut i: usize = 0;
    while i < fonts.len()
        invariant
            i <= fonts.len(),
            names_of(fonts@) == available_fonts(),
            forall|k: int| 0 <= k < i ==> available_fonts()[k] != name@,
        decreases fonts.len() - i,
    {
        if text::same_text(fonts[i].as_str(), name) {
            assert(available_fonts()[i as int] == name@);
            return true;
        }
        i += 1;
    }
    false
}

/// The names of `priority` that can be drawn with: the fonts egui carries, and the families of
/// this machine in `loadable`, in the order the settings give them.
pub open spec fn drawable(priority: Seq<Seq<char>>, loadable: Seq<Seq<char>>) -> Seq<Seq<char>> {
    priority.filter(|name: Seq<char>| available_fonts().contains(name) || loadable.contains(name))
}

/// The order the window is drawn in for the settings' order `priority`, when the machine's
/// families in `loadable` can be loaded: the names in it that can be drawn with, in its order, or
/// the default order when that leaves nothing, because a family with no fonts at all is a window
/// with no text in it.
pub fn order_to_install(priority: &[String], loadable: &[String]) -> (r: Vec<String>)
    ensures
        drawable(names_of(priority@), names_of(loadable@)).len() == 0 ==> names_of(r@)
            == available_fonts(),
        drawable(names_of(priority@), names_of(loadable@)).len() > 0 ==> names_of(r@) == drawable(
            names_of(priority@),
            names_of(loadable@),
        ),
{
    let ghost wanted = names_of(priority@);
    let ghost machine = names_of(loadable@);
    let mut chosen: Vec<String> = Vec::new();
    let mut i: usize = 0;
    while i < priority.len()
        invariant
            i <= priority.len(),
            wanted == names_of(priority@),
            machine == names_of(loadable@),
            names_of(chosen@) == drawable(wanted.take(i as int), machine),
        decreases priority.len() - i,
    {
        let name = priority[i].as_str();
        assert(wanted.take(i + 1) =~= wanted.take(i as int).push(name@));
        assert(wanted.take(i + 1).drop_last() =~= wanted.take(i as int));
        let mut known = bundled(name);
        let mut k: usize = 0;
        while k < loadable.len() && !known
            invariant
                k <= loadable.len(),
                machine == names_of(loadable@),
                known == (available_fonts().contains(name@) || machine.take(k as int).contains(name@)),
            decreases loadable.len() - k,
        {
            let ghost shorter = machine.take(k as int);
            assert(machine.take(k + 1) =~= shorter.push(loadable@[k as int]@));
            if text::same_text(loadable[k].as_str(), name) {
                known = true;
                assert(machine.take(k + 1)[k as int] == name@);
            }
            proof {
                let longer = machine.take(k + 1);
                if longer.contains(name@) && loadable@[k as int]@ != name@ {
                    let j = choose|j: int| 0 <= j < longer.len() && longer[j] == name@;
                    assert(shorter[j] == name@);
                }
                if shorter.contains(name@) {
                    let j = choose|j: int| 0 <= j < shorter.len() && shorter[j] == name@;
                    assert(longer[j] == name@);
                }
            }
            k += 1;
        }
        proof {
            if k == loadable.len() {
                assert(machine.take(k as int) =~= machine);
            } else {
                assert(known);
                if !available_fonts().contains(name@) {
                    let taken = machine.take(k as int);
                    let j = choose|j: int| 0 <= j < taken.len() && taken[j] == name@;
                    assert(machine[j] == name@);
                }
            }
        }
        let ghost before = chosen@;
        if known {
            let copy = priority[i].clone();
            chosen.push(copy);
            assert(names_of(chosen@) =~= names_of(before).push(name@));
        }
        proof {
            wanted.take(i as int).lemma_filter_push(
                name@,
                |n: Seq<char>| available_fonts().contains(n) || machine.contains(n),
            );
        }
        i += 1;
    }
    assert(wanted.take(i as int) =~= wanted);
    if chosen.len() == 0 {
        return default_priority();
    }
    chosen
}

} // verus!
