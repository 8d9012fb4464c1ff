//! Colors and inline escape styling for the status line.
//!
//! Fragments are styled with standard SGR escape sequences; every function
//! here states the exact character sequence it produces.

use vstd::prelude::*;

use crate::util::dec_spec;
use crate::util::dec_string;

verus! {

/// Whether the theme is built on a dark or a light background.
#[derive(Clone, Copy, Debug, PartialEq, Eq, Structural)]
pub enum ThemeHue {
    Dark,
    Light,
}

/// One palette color, either truecolor or from the 256-color cube.
#[derive(Clone, Copy, Debug, PartialEq, Eq, Structural)]
pub enum Color {
    Rgb(u8, u8, u8),
    EightBit(u8),
}

/// The host-supplied color theme, consumed read-only on every redraw.
#[derive(Clone, Copy, Debug, PartialEq, Eq, Structural)]
pub struct Palette {
    pub hue: ThemeHue,
    pub fg: Color,
    pub bg: Color,
    pub black: Color,
    pub white: Color,
    pub green: Color,
    pub orange: Color,
    pub red: Color,
}

/// The two characters every escape sequence opens with.
pub open spec fn esc_spec() -> Seq<char> {
    seq!['\u{1b}', '[']
}

/// The SGR parameter list selecting `c` as foreground or background.
pub open spec fn sgr_params_spec(c: Color, foreground: bool) -> Seq<char> {
    let lead: Seq<char> = if foreground {
        seq!['3', '8']
    } else {
        seq!['4', '8']
    };
    match c {
        Color::Rgb(r, g, b) => lead + seq![';', '2', ';'] + dec_spec(r as int) + seq![';']
            + dec_spec(g as int) + seq![';'] + dec_spec(b as int),
        Color::EightBit(n) => lead + seq![';', '5', ';'] + dec_spec(n as int),
    }
}

/// `text` colored `fg` on `bg`, with a trailing style reset.
pub open spec fn styled_spec(text: Seq<char>, fg: Color, bg: Color) -> Seq<char> {
    esc_spec() + sgr_params_spec(fg, true) + seq!['m'] + esc_spec() + sgr_params_spec(bg, false)
        + seq!['m'] + text + esc_spec() + seq!['0', 'm']
}

/// `text` in reverse video: the monochrome stand-in for the active label.
pub open spec fn reversed_spec(text: Seq<char>) -> Seq<char> {
    esc_spec() + seq!['7', 'm'] + text + esc_spec() + seq!['0', 'm']
}

/// The command that paints the rest of the row in `c`.
pub open spec fn bg_fill_spec(c: Color) -> Seq<char> {
    esc_spec() + sgr_params_spec(c, false) + seq!['m'] + esc_spec() + seq!['0', 'K']
}

fn push_esc(out: &mut String)
    ensures
        final(out)@ == old(out)@ + esc_spec(),
{
    out.append("\u{1b}[");
    proof {
        reveal_strlit("\u{1b}[");
        assert(out@ =~= old(out)@ + esc_spec());
    }
}

fn push_sgr_params(out: &mut String, c: Color, foreground: bool)
    ensures
        final(out)@ == old(out)@ + sgr_params_spec(c, foreground),
{
    proof {
        reveal_strlit("38;2;");
        reveal_strlit("48;2;");
        reveal_strlit("38;5;");
        reveal_strlit("48;5;");
        reveal_strlit(";");
    }
    match c {
        Color::Rgb(r, g, b) => {
            out.append(if foreground { "38;2;" } else { "48;2;" });
            let rs = dec_string(r as usize);
            out.append(rs.as_str());
            out.append(";");
            let gs = dec_string(g as usize);
            out.append(gs.as_str());
            out.append(";");
            let bs = dec_string(b as usize);
            out.append(bs.as_str());
            proof {
                assert(out@ =~= old(out)@ + sgr_params_spec(c, foreground));
            }
        },
        Color::EightBit(n) => {
            out.append(if foreground { "38;5;" } else { "48;5;" });
            let ns = dec_string(n as usize);
            out.append(ns.as_str());
            proof {
                assert(out@ =~= old(out)@ + sgr_params_spec(c, foreground));
            }
        },
    }
}

/// Append `text` colored `fg` on `bg`.
pub fn push_styled(out: &mut String, text: &str, fg: Color, bg: Color)
    ensures
        final(out)@ == old(out)@ + styled_spec(text@, fg, bg),
{
    proof {
        reveal_strlit("m");
        reveal_strlit("0m");
    }
    push_esc(out);
    push_sgr_params(out, fg, true);
    out.append("m");
    push_esc(out);
    push_sgr_params(out, bg, false);
    out.append("m");
    out.append(text);
    push_esc(out);
    out.append("0m");
    proof {
        assert(out@ =~= old(out)@ + styled_spec(text@, fg, bg));
    }
}

/// Append `text` in reverse video.
pub fn push_reversed(out: &mut String, text: &str)
    ensures
        final(out)@ == old(out)@ + reversed_spec(text@),
{
    proof {
        reveal_strlit("7m");
        reveal_strlit("0m");
    }
    push_esc(out);
    out.append("7m");
    out.append(text);
    push_esc(out);
    out.append("0m");
    proof {
        assert(out@ =~= old(out)@ + reversed_spec(text@));
    }
}

/// The full-row background fill matching the theme: black on a dark theme,
/// white on a light one.
pub fn bg_fill(p: Palette) -> (r: String)
    ensures
        r@ == bg_fill_spec(
            match p.hue {
                ThemeHue::Dark => p.black,
                ThemeHue::Light => p.white,
            },
        ),
{
    proof {
        reveal_strlit("m");
        reveal_strlit("0K");
    }
    let c = match p.hue {
        ThemeHue::Dark => p.black,
        ThemeHue::Light => p.white,
    };
    let mut out = String::new();
    push_esc(&mut out);
    push_sgr_params(&mut out, c, false);
    out.append("m");
    push_esc(&mut out);
    out.append("0K");
    proof {
        assert(out@ =~= bg_fill_spec(c));
    }
    out
}

} // verus!
