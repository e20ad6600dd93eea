//! How the child's screen is sized beside the host's decorations.
use vstd::prelude::*;
use crate::display::renderer::{opt_str, with_agent, with_attribution, Renderer};
use crate::display::{Direction, Layout};

verus! {

/// The options of a session that its decisions depend on.
pub struct Options {
    /// Start with visual correction disabled.
    pub no_bidi: bool,
    /// Base direction of each text field.
    pub direction: Direction,
    /// How spaces separate fields.
    pub layout: Layout,
    /// Rows of history retained.
    pub scrollback: u16,
    /// Do not replay the transcript after exit.
    pub no_replay: bool,
    /// Decorate recognised Markdown.
    pub pretty: bool,
    /// Label messages of this agent in a margin.
    pub agent_label: Option<String>,
    /// Credit line below the child's screen.
    pub attribution: bool,
    /// Draw in the host's normal screen, pushing finished rows into its
    /// scrollback.
    pub inline: bool,
}

/// The size of the child's pseudo-terminal.
#[derive(Clone, Copy, Debug, PartialEq, Eq, Structural)]
pub struct Geometry {
    pub rows: u16,
    pub cols: u16,
}

/// At least one row and one column.
pub open spec fn spec_size(cols: u16, rows: u16) -> Geometry {
    Geometry { rows: if rows >= 1 {
        rows
    } else {
        1
    }, cols: if cols >= 1 {
        cols
    } else {
        1
    } }
}

/// The child's size in a host of `cols` x `rows`, and whether labels are
/// shown: decorations disappear before they take the child's last cells (the
/// margin needs ten columns, the attribution two rows).
pub open spec fn spec_child_geometry(labelled: bool, attribution: bool, cols: u16, rows: u16) -> (
    Geometry,
    bool,
) {
    let labels = labelled && cols >= 10;
    let c = if labels {
        (cols - 8) as u16
    } else {
        cols
    };
    let r = if attribution && rows > 1 {
        (rows - 1) as u16
    } else {
        rows
    };
    (spec_size(c, r), labels)
}

fn size(cols: u16, rows: u16) -> (g: Geometry)
    ensures
        g == spec_size(cols, rows),
{
    Geometry { rows: if rows >= 1 {
        rows
    } else {
        1
    }, cols: if cols >= 1 {
        cols
    } else {
        1
    } }
}

pub fn child_geometry(options: &Options, cols: u16, rows: u16) -> (r: (Geometry, bool))
    ensures
        r == spec_child_geometry(options.agent_label is Some, options.attribution, cols, rows),
{
    let labels = options.agent_label.is_some() && cols >= 10;
    let c = if labels {
        cols - 8
    } else {
        cols
    };
    let r: u16 = if options.attribution && rows > 1 {
        rows - 1
    } else {
        rows
    };
    (size(c, r), labels)
}

/// Shows the margin and attribution only where the host has room for them.
pub fn configure_renderer(renderer: &mut Renderer, options: &Options, cols: u16, rows: u16)
    requires
        old(renderer).wf(),
    ensures
        final(renderer).wf(),
        final(renderer)@ == with_attribution(
            with_agent(
                old(renderer)@,
                if spec_child_geometry(options.agent_label is Some, options.attribution, cols, rows).1 {
                    match options.agent_label {
                        Some(a) => Some(a@),
                        None => None,
                    }
                } else {
                    None
                },
            ),
            options.attribution && rows > 1,
        ),
{
    let shown = child_geometry(options, cols, rows).1;
    let agent: Option<&str> = if shown {
        match &options.agent_label {
            Some(a) => Some(a.as_str()),
            None => None,
        }
    } else {
        None
    };
    renderer.set_agent_label(agent);
    renderer.set_attribution(options.attribution && rows > 1);
}

/// The exit status for a termination signal: 128 plus its number.
pub open spec fn spec_signal_exit_code(signal: usize) -> Option<u32> {
    if signal != 0 {
        Some((128 + signal) as u32)
    } else {
        None
    }
}

pub fn signal_exit_code(signal: usize) -> (code: Option<u32>)
    requires
        signal <= u32::MAX - 128,
    ensures
        code == spec_signal_exit_code(signal),
{
    if signal != 0 {
        Some(128 + signal as u32)
    } else {
        None
    }
}

/// Console input mode bits: mouse (0x10), window (0x8), extended flags
/// (0x80) and quick edit (0x40).
pub open spec fn spec_mouse_console_mode(mode: u32, enabled: bool) -> u32 {
    if enabled {
        (mode | 0x10u32 | 0x8u32 | 0x80u32) & !0x40u32
    } else {
        mode & !0x10u32
    }
}

/// The console input mode that turns mouse reporting on (with window events
/// and without quick edit, which would swallow clicks) or off, keeping every
/// other bit.
pub fn mouse_console_mode(mode: u32, enabled: bool) -> (m: u32)
    ensures
        m == spec_mouse_console_mode(mode, enabled),
{
    if enabled {
        (mode | 0x10u32 | 0x8u32 | 0x80u32) & !0x40u32
    } else {
        mode & !0x10u32
    }
}

/// The child gets what the decorations leave: the margin takes exactly eight
/// columns and is shown only with an agent label on a host of ten columns or
/// more; the attribution takes exactly one row when the host has more than
/// one; the child always has at least one row and one column.
pub proof fn lemma_child_geometry(labelled: bool, attribution: bool, cols: u16, rows: u16)
    ensures
        spec_child_geometry(labelled, attribution, cols, rows).1 <==> (labelled && cols >= 10),
        spec_child_geometry(labelled, attribution, cols, rows).1 ==> spec_child_geometry(
            labelled,
            attribution,
            cols,
            rows,
        ).0.cols + 8 == cols,
        !spec_child_geometry(labelled, attribution, cols, rows).1 && cols >= 1 ==> spec_child_geometry(
            labelled,
            attribution,
            cols,
            rows,
        ).0.cols == cols,
        attribution && rows > 1 ==> spec_child_geometry(labelled, attribution, cols, rows).0.rows + 1 == rows,
        !attribution && rows >= 1 ==> spec_child_geometry(labelled, attribution, cols, rows).0.rows == rows,
        spec_child_geometry(labelled, attribution, cols, rows).0.rows >= 1,
        spec_child_geometry(labelled, attribution, cols, rows).0.cols >= 1,
{
}

/// A signal's exit status is 128 plus its number (an interrupt, signal 2,
/// ends with 130); signal 0 is none.
pub proof fn lemma_signal_status(signal: usize)
    requires
        signal <= u32::MAX - 128,
    ensures
        signal == 0 <==> spec_signal_exit_code(signal) is None,
        signal != 0 ==> spec_signal_exit_code(signal) == Some((signal + 128) as u32),
        spec_signal_exit_code(2) == Some(130u32),
{
}

/// Turning console mouse input on sets the mouse (0x10), window (0x8) and
/// extended-flags (0x80) bits and clears quick edit (0x40); turning it off
/// clears only the mouse bit. Every other bit of the mode is kept.
pub proof fn lemma_console_mode_bits(mode: u32)
    ensures
        spec_mouse_console_mode(mode, true) & 0x10u32 == 0x10u32,
        spec_mouse_console_mode(mode, true) & 0x8u32 == 0x8u32,
        spec_mouse_console_mode(mode, true) & 0x80u32 == 0x80u32,
        spec_mouse_console_mode(mode, true) & 0x40u32 == 0u32,
        spec_mouse_console_mode(mode, true) & !0xD8u32 == mode & !0xD8u32,
        spec_mouse_console_mode(mode, false) & 0x10u32 == 0u32,
        spec_mouse_console_mode(mode, false) & !0x10u32 == mode & !0x10u32,
{
    let on = (mode | 0x10u32 | 0x8u32 | 0x80u32) & !0x40u32;
    let off = mode & !0x10u32;
    assert(on & 0x10u32 == 0x10u32) by (bit_vector)
        requires
            on == (mode | 0x10u32 | 0x8u32 | 0x80u32) & !0x40u32,
    ;
    assert(on & 0x8u32 == 0x8u32) by (bit_vector)
        requires
            on == (mode | 0x10u32 | 0x8u32 | 0x80u32) & !0x40u32,
    ;
    assert(on & 0x80u32 == 0x80u32) by (bit_vector)
        requires
            on == (mode | 0x10u32 | 0x8u32 | 0x80u32) & !0x40u32,
    ;
    assert(on & 0x40u32 == 0u32) by (bit_vector)
        requires
            on == (mode | 0x10u32 | 0x8u32 | 0x80u32) & !0x40u32,
    ;
    assert(on & !0xD8u32 == mode & !0xD8u32) by (bit_vector)
        requires
            on == (mode | 0x10u32 | 0x8u32 | 0x80u32) & !0x40u32,
    ;
    assert(off & 0x10u32 == 0u32) by (bit_vector)
        requires
            off == mode & !0x10u32,
    ;
    assert(off & !0x10u32 == mode & !0x10u32) by (bit_vector)
        requires
            off == mode & !0x10u32,
    ;
}

} // verus!
