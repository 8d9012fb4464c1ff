//! Status-line core for a terminal-multiplexer tab bar.
//!
//! The crate renders a row of workspace ("tab") labels as styled text
//! fragments, tracks which tab is active, and overlays a blinking alert on
//! background tabs whose monitored command has exited, until the user visits
//! them.  All state transitions and the layout algorithm are verified; the
//! host-facing glue (event delivery, timers, printing) lives outside.

use vstd::prelude::*;

pub mod alerts;
pub mod codec;
pub mod control;
pub mod line;
pub mod style;
pub mod tab;
pub mod util;

verus! {

/// One styled, width-measured unit of the rendered status line.
///
/// `part` is the text to print, escape styling included; `len` is the number
/// of display columns the text occupies (every visible character counts as
/// one column); `tab_index` names the workspace a click inside this fragment
/// should focus, and is `None` for decoration.
#[derive(Debug)]
pub struct LinePart {
    pub part: String,
    pub len: usize,
    pub tab_index: Option<usize>,
}

/// The mathematical value of a fragment.
pub struct LinePartV {
    pub part: Seq<char>,
    pub width: int,
    pub tab_index: Option<usize>,
}

impl View for LinePart {
    type V = LinePartV;

    open spec fn view(&self) -> LinePartV {
        LinePartV { part: self.part@, width: self.len as int, tab_index: self.tab_index }
    }
}

} // verus!
