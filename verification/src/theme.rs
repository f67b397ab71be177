//! Colours, sizes and short texts of the user interface.
use crate::task;
use crate::text;
use vstd::prelude::*;
use vstd::string::*;

verus! {

/// Width of the activity rail, in pixels.
pub const ACTIVITY_W: u32 = 48;

/// Width of the sidebar.
pub const SIDEBAR_W: u32 = 264;

/// Width of the review panel.
pub const REVIEW_W: u32 = 400;

/// Height of the top bar.
pub const TOP_H: u32 = 36;

/// Height of the status bar.
pub const STATUS_H: u32 = 24;

/// Least height of a row.
pub const ROW_H: u32 = 32;

/// Size of ordinary text.
pub const TEXT_BASE: u32 = 13;

/// Size of secondary text.
pub const TEXT_SECONDARY: u32 = 12;

/// Size of metadata.
pub const TEXT_META: u32 = 11;

/// Colour of what goes well, as red, green, blue and opacity.
pub const OK_COLOR: u32 = 0x3fd17cff;

/// Colour of what goes wrong.
pub const BAD_COLOR: u32 = 0xe5484dff;

/// Colour of what wants attention.
pub const WARN_COLOR: u32 = 0xf5c542ff;

/// Colour of the main action.
pub const ACCENT_COLOR: u32 = 0x5eb1f0ff;

/// Colour of the head of a hunk, and of the system's part of a context.
pub const HEAD_COLOR: u32 = 0xb18cf0ff;

/// Colour of muted text: darker on a light surface.
pub fn muted_for(dark: bool) -> (c: u32)
    ensures
        c == (if dark {
            0x8b8b93ffu32
        } else {
            0x5f6368ffu32
        }),
{
    if dark {
        0x8b8b93ff
    } else {
        0x5f6368ff
    }
}

/// Colour of soft borders.
pub fn soft_border_for(dark: bool) -> (c: u32)
    ensures
        c == (if dark {
            0x33363fffu32
        } else {
            0xdfe1e6ffu32
        }),
{
    if dark {
        0x33363fff
    } else {
        0xdfe1e6ff
    }
}

/// Background of the selected row.
pub fn active_bg(dark: bool) -> (c: u32)
    ensures
        c == (if dark {
            0x2a3044ffu32
        } else {
            0xe8edf5ffu32
        }),
{
    if dark {
        0x2a3044ff
    } else {
        0xe8edf5ff
    }
}

/// Background of what the user said.
pub fn bubble_bg(dark: bool) -> (c: u32)
    ensures
        c == (if dark {
            0x242838ffu32
        } else {
            0xeef1f6ffu32
        }),
{
    if dark {
        0x242838ff
    } else {
        0xeef1f6ff
    }
}

/// Background of floating cards.
pub fn card_bg(dark: bool) -> (c: u32)
    ensures
        c == (if dark {
            0x1d2029ffu32
        } else {
            0xffffffffu32
        }),
{
    if dark {
        0x1d2029ff
    } else {
        0xffffffff
    }
}

/// The sign of a state. What wants attention most comes first.
pub open spec fn glyph(working: bool, needs_you: bool, blocked: bool, done: bool) -> Seq<char> {
    if blocked {
        "■"@
    } else if needs_you {
        "?"@
    } else if working {
        "●"@
    } else if done {
        "✓"@
    } else {
        "○"@
    }
}

/// The sign of a state. What wants attention most comes first.
pub fn status_glyph(working: bool, needs_you: bool, blocked: bool, done: bool) -> (s: &'static str)
    ensures
        s@ == glyph(working, needs_you, blocked, done),
{
    if blocked {
        "■"
    } else if needs_you {
        "?"
    } else if working {
        "●"
    } else if done {
        "✓"
    } else {
        "○"
    }
}

/// Whether a text is too long to be shown in full.
pub fn is_truncated(s: &str, max_chars: usize) -> (r: bool)
    ensures
        r == (s@.len() > max_chars),
{
    let n: usize = text::chars_of(s).len();
    n > max_chars
}

/// A text, cut with a mark where it is too long.
pub fn truncate(s: &str, max_chars: usize) -> (r: String)
    ensures
        r@ == task::capped(s@, max_chars as int),
{
    task::cap_text(s, max_chars)
}

/// The mark shows what matters most: that it is blocked, else that it needs
/// you, else that it works, else that it is done.
pub proof fn mark_shows_what_matters_most(working: bool, needs_you: bool, blocked: bool, done: bool)
    ensures
        blocked ==> glyph(working, needs_you, blocked, done) == "■"@,
        !blocked && needs_you ==> glyph(working, needs_you, blocked, done) == "?"@,
        !blocked && !needs_you && working ==> glyph(working, needs_you, blocked, done) == "●"@,
        !blocked && !needs_you && !working && done ==> glyph(working, needs_you, blocked, done)
            == "✓"@,
        !blocked && !needs_you && !working && !done ==> glyph(working, needs_you, blocked, done)
            == "○"@,
{
}

/// What is well, what is wrong and what needs somebody never look alike.
pub proof fn colours_differ()
    ensures
        OK_COLOR != BAD_COLOR,
        OK_COLOR != WARN_COLOR,
        BAD_COLOR != WARN_COLOR,
        HEAD_COLOR != OK_COLOR && HEAD_COLOR != BAD_COLOR && HEAD_COLOR != WARN_COLOR,
        ACCENT_COLOR != OK_COLOR && ACCENT_COLOR != BAD_COLOR && ACCENT_COLOR != WARN_COLOR,
{
}

} // verus!
