//! Rendering of one workspace label into a styled fragment.

use vstd::prelude::*;

use crate::LinePart;
use crate::alerts::TabAlert;
use crate::style::Color;
use crate::style::Palette;
use crate::style::push_reversed;
use crate::style::push_styled;
use crate::style::reversed_spec;
use crate::style::styled_spec;
use crate::util::char_count;

verus! {

/// The foreground/background pair for one label.  The active label ignores
/// any alert; an alert alternates its outcome color with black as the blink
/// phase flips; everything else gets the inactive pair.  Decoration
/// fragments share the inactive pair.
pub open spec fn tab_colors(active: bool, alert: Option<TabAlert>, p: Palette) -> (Color, Color) {
    if active {
        (p.black, p.green)
    } else {
        match alert {
            Some(a) => {
                let c = if a.success {
                    p.orange
                } else {
                    p.red
                };
                if a.alternate_color {
                    (p.black, c)
                } else {
                    (c, p.black)
                }
            },
            None => (p.black, p.fg),
        }
    }
}

/// A label padded with its one-column margins.
pub open spec fn padded_spec(label: Seq<char>) -> Seq<char> {
    seq![' '] + label + seq![' ']
}

/// The exact text of one rendered label: colored when the surface reports
/// color support, otherwise monochrome with the active label in reverse
/// video.
pub open spec fn tab_text_spec(
    label: Seq<char>,
    active: bool,
    alert: Option<TabAlert>,
    p: Palette,
    colored: bool,
) -> Seq<char> {
    if colored {
        styled_spec(padded_spec(label), tab_colors(active, alert, p).0, tab_colors(active, alert, p).1)
    } else if active {
        reversed_spec(padded_spec(label))
    } else {
        padded_spec(label)
    }
}

/// Render one workspace label (already prefixed with its 1-based position
/// number and a trailing space) as a click-routable fragment.
pub fn tab_style(
    tabname: String,
    active: bool,
    alert: Option<TabAlert>,
    position: usize,
    palette: Palette,
    colored: bool,
) -> (r: LinePart)
    ensures
        r@.part == tab_text_spec(tabname@, active, alert, palette, colored),
        r@.width == tabname@.len() + 2,
        r@.tab_index == Some(position),
{
    proof {
        reveal_strlit(" ");
    }
    let mut padded = String::new();
    padded.append(" ");
    padded.append(tabname.as_str());
    padded.append(" ");
    proof {
        assert(padded@ =~= padded_spec(tabname@));
    }
    let width = char_count(padded.as_str());
    let mut part = String::new();
    if colored {
        let (fg, bg) = match (active, alert) {
            (true, _) => (palette.black, palette.green),
            (false, Some(a)) => {
                let c = if a.success {
                    palette.orange
                } else {
                    palette.red
                };
                if a.alternate_color {
                    (palette.black, c)
                } else {
                    (c, palette.black)
                }
            },
            (false, None) => (palette.black, palette.fg),
        };
        push_styled(&mut part, padded.as_str(), fg, bg);
    } else if active {
        push_reversed(&mut part, padded.as_str());
    } else {
        part.append(padded.as_str());
        proof {
            assert(part@ =~= padded@);
        }
    }
    LinePart { part, len: width, tab_index: Some(position) }
}

} // verus!
