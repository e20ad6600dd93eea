//! The terminal conventions between host, session and child, stated byte for
//! byte: the xterm key sequences, the mouse report codes, focus reports,
//! bracketed paste, the session's own keys, and the replies to the child's
//! queries. Each law holds for every modifier, mode and position it names.
use vstd::prelude::*;
use crate::bytes::{decimal, utf8};
use crate::input::{
    spec_key_bytes,
    spec_mouse_bytes,
    spec_paste_bytes,
    KeyCode,
    KeyEvent,
    KeyEventKind,
    KeyModifiers,
    MouseButton,
    MouseEvent,
    MouseEventKind,
    MouseProtocolEncoding,
    MouseProtocolMode,
};
use crate::display::renderer::{margin_of, spec_logical_column, RendererView};
use crate::hyperlink::is_control;
use crate::text::digits;
use crate::protocol::{
    colour_reply,
    csi_reply,
    id_field,
    is_erase_saved,
    mode_after,
    osc8_link,
    osc8_parts,
    osc_size,
    ScreenState,
};
use crate::session::interaction::{input_outcome, ActionView, ChildModes, HostEvent, InputState};

verus! {

/// A key event with the given code, modifiers and kind.
pub open spec fn key_event(code: KeyCode, m: KeyModifiers, kind: KeyEventKind) -> KeyEvent {
    KeyEvent { code, modifiers: m, kind }
}

/// No modifier held.
pub open spec fn unmodified(m: KeyModifiers) -> bool {
    !m.shift && !m.alt && !m.control
}

/// The xterm modifier digit: `1` plus 1 for Shift, 2 for Alt and 4 for Ctrl.
pub open spec fn modifier_digit(m: KeyModifiers) -> u8 {
    (49 + (if m.shift { 1int } else { 0 }) + (if m.alt { 2int } else { 0 }) + (if m.control {
        4int
    } else {
        0
    })) as u8
}

/// Shift+Tab, reported as `BackTab`, is always `CSI Z`, whatever the
/// modifiers and the cursor-key mode, and never the Tab byte; releases send
/// nothing.
pub proof fn lemma_back_tab(m: KeyModifiers, application_cursor: bool, kind: KeyEventKind)
    ensures
        kind != KeyEventKind::Release ==> spec_key_bytes(
            key_event(KeyCode::BackTab, m, kind),
            application_cursor,
        ) == seq![27u8, 91u8, 90u8],
        kind != KeyEventKind::Release && !m.alt && m.shift ==> spec_key_bytes(
            key_event(KeyCode::Tab, m, kind),
            application_cursor,
        ) == seq![27u8, 91u8, 90u8],
        kind == KeyEventKind::Release ==> spec_key_bytes(
            key_event(KeyCode::BackTab, m, kind),
            application_cursor,
        ) == Seq::<u8>::empty(),
{
}

/// Unmodified keys send the classic bytes: Enter CR, Tab HT, Backspace DEL,
/// Esc ESC; cursor keys `CSI A`..`CSI D`, Home `CSI H` and End `CSI F`, or
/// `ESC O` with the same letter in application cursor mode; the editing keys
/// `CSI 2 ~`, `CSI 3 ~`, `CSI 5 ~`, `CSI 6 ~`; F1 to F4 `ESC O P`..`ESC O S`
/// and F5 `CSI 15 ~`.
pub proof fn lemma_plain_keys(m: KeyModifiers, app: bool, kind: KeyEventKind)
    requires
        unmodified(m),
        kind != KeyEventKind::Release,
    ensures
        spec_key_bytes(key_event(KeyCode::Enter, m, kind), app) == seq![13u8],
        spec_key_bytes(key_event(KeyCode::Tab, m, kind), app) == seq![9u8],
        spec_key_bytes(key_event(KeyCode::Backspace, m, kind), app) == seq![127u8],
        spec_key_bytes(key_event(KeyCode::Esc, m, kind), app) == seq![27u8],
        spec_key_bytes(key_event(KeyCode::Up, m, kind), app) == seq![27u8, if app { 79u8 } else { 91u8 }, 65u8],
        spec_key_bytes(key_event(KeyCode::Down, m, kind), app) == seq![27u8, if app { 79u8 } else { 91u8 }, 66u8],
        spec_key_bytes(key_event(KeyCode::Right, m, kind), app) == seq![27u8, if app { 79u8 } else { 91u8 }, 67u8],
        spec_key_bytes(key_event(KeyCode::Left, m, kind), app) == seq![27u8, if app { 79u8 } else { 91u8 }, 68u8],
        spec_key_bytes(key_event(KeyCode::Home, m, kind), app) == seq![27u8, if app { 79u8 } else { 91u8 }, 72u8],
        spec_key_bytes(key_event(KeyCode::End, m, kind), app) == seq![27u8, if app { 79u8 } else { 91u8 }, 70u8],
        spec_key_bytes(key_event(KeyCode::Insert, m, kind), app) == seq![27u8, 91u8, 50u8, 126u8],
        spec_key_bytes(key_event(KeyCode::Delete, m, kind), app) == seq![27u8, 91u8, 51u8, 126u8],
        spec_key_bytes(key_event(KeyCode::PageUp, m, kind), app) == seq![27u8, 91u8, 53u8, 126u8],
        spec_key_bytes(key_event(KeyCode::PageDown, m, kind), app) == seq![27u8, 91u8, 54u8, 126u8],
        spec_key_bytes(key_event(KeyCode::F(1), m, kind), app) == seq![27u8, 79u8, 80u8],
        spec_key_bytes(key_event(KeyCode::F(2), m, kind), app) == seq![27u8, 79u8, 81u8],
        spec_key_bytes(key_event(KeyCode::F(3), m, kind), app) == seq![27u8, 79u8, 82u8],
        spec_key_bytes(key_event(KeyCode::F(4), m, kind), app) == seq![27u8, 79u8, 83u8],
        spec_key_bytes(key_event(KeyCode::F(5), m, kind), app) == seq![27u8, 91u8, 49u8, 53u8, 126u8],
        spec_key_bytes(key_event(KeyCode::F(6), m, kind), app) == seq![27u8, 91u8, 49u8, 55u8, 126u8],
        spec_key_bytes(key_event(KeyCode::F(7), m, kind), app) == seq![27u8, 91u8, 49u8, 56u8, 126u8],
        spec_key_bytes(key_event(KeyCode::F(8), m, kind), app) == seq![27u8, 91u8, 49u8, 57u8, 126u8],
        spec_key_bytes(key_event(KeyCode::F(9), m, kind), app) == seq![27u8, 91u8, 50u8, 48u8, 126u8],
        spec_key_bytes(key_event(KeyCode::F(10), m, kind), app) == seq![27u8, 91u8, 50u8, 49u8, 126u8],
        spec_key_bytes(key_event(KeyCode::F(11), m, kind), app) == seq![27u8, 91u8, 50u8, 51u8, 126u8],
        spec_key_bytes(key_event(KeyCode::F(12), m, kind), app) == seq![27u8, 91u8, 50u8, 52u8, 126u8],
        spec_key_bytes(key_event(KeyCode::Null, m, kind), app) == Seq::<u8>::empty(),
        spec_key_bytes(key_event(KeyCode::Other, m, kind), app) == Seq::<u8>::empty(),
{
    assert(decimal(1) =~= seq![49u8]);
    assert(decimal(2) =~= seq![50u8]);
    assert(decimal(15) =~= decimal(1).push(53u8));
    assert(decimal(17) =~= decimal(1).push(55u8));
    assert(decimal(18) =~= decimal(1).push(56u8));
    assert(decimal(19) =~= decimal(1).push(57u8));
    assert(decimal(20) =~= decimal(2).push(48u8));
    assert(decimal(21) =~= decimal(2).push(49u8));
    assert(decimal(23) =~= decimal(2).push(51u8));
    assert(decimal(24) =~= decimal(2).push(52u8));
}

/// A modified cursor key carries its modifiers as `CSI 1 ; digit letter`,
/// whatever the cursor-key mode, and a modified editing key as
/// `CSI code ; digit ~`.
pub proof fn lemma_modified_keys(m: KeyModifiers, app: bool, kind: KeyEventKind)
    requires
        !unmodified(m),
        kind != KeyEventKind::Release,
    ensures
        spec_key_bytes(key_event(KeyCode::Up, m, kind), app) == seq![27u8, 91u8, 49u8, 59u8, modifier_digit(m), 65u8],
        spec_key_bytes(key_event(KeyCode::Down, m, kind), app) == seq![27u8, 91u8, 49u8, 59u8, modifier_digit(m), 66u8],
        spec_key_bytes(key_event(KeyCode::Right, m, kind), app) == seq![27u8, 91u8, 49u8, 59u8, modifier_digit(m), 67u8],
        spec_key_bytes(key_event(KeyCode::Left, m, kind), app) == seq![27u8, 91u8, 49u8, 59u8, modifier_digit(m), 68u8],
        spec_key_bytes(key_event(KeyCode::Home, m, kind), app) == seq![27u8, 91u8, 49u8, 59u8, modifier_digit(m), 72u8],
        spec_key_bytes(key_event(KeyCode::End, m, kind), app) == seq![27u8, 91u8, 49u8, 59u8, modifier_digit(m), 70u8],
        spec_key_bytes(key_event(KeyCode::Delete, m, kind), app) == seq![27u8, 91u8, 51u8, 59u8, modifier_digit(m), 126u8],
        spec_key_bytes(key_event(KeyCode::F(1), m, kind), app) == seq![27u8, 91u8, 49u8, 59u8, modifier_digit(m), 80u8],
{
}

/// Ctrl with a letter sends its control byte (`a` and `A` give 1, `z` and
/// `Z` give 26), Ctrl+Backspace sends BS, and Alt puts ESC in front of a
/// character.
pub proof fn lemma_control_and_alt(c: char, app: bool, kind: KeyEventKind)
    requires
        kind != KeyEventKind::Release,
    ensures
        'a' <= c <= 'z' ==> spec_key_bytes(key_event(KeyCode::Char(c), KeyModifiers { shift: false, alt: false, control: true }, kind), app)
            == seq![(c as u32 - 96) as u8],
        'A' <= c <= 'Z' ==> spec_key_bytes(key_event(KeyCode::Char(c), KeyModifiers { shift: false, alt: false, control: true }, kind), app)
            == seq![(c as u32 - 64) as u8],
        spec_key_bytes(key_event(KeyCode::Char(c), KeyModifiers { shift: false, alt: false, control: false }, kind), app)
            == utf8(seq![c]),
        spec_key_bytes(key_event(KeyCode::Char(c), KeyModifiers { shift: false, alt: true, control: false }, kind), app)
            == seq![27u8] + utf8(seq![c]),
        spec_key_bytes(key_event(KeyCode::Backspace, KeyModifiers { shift: false, alt: false, control: true }, kind), app)
            == seq![8u8],
{
    assert(seq![c].drop_first() =~= Seq::<char>::empty());
    assert(vstd::utf8::encode_utf8(Seq::<char>::empty()) =~= Seq::<u8>::empty());
    assert(utf8(seq![c]) =~= vstd::utf8::encode_scalar(c as u32) + Seq::<u8>::empty());
    assert(utf8(seq![c]) =~= vstd::utf8::encode_scalar(c as u32));
}

/// The number of a mouse button in reports: left 0, middle 1, right 2.
pub open spec fn button_number(b: MouseButton) -> int {
    match b {
        MouseButton::Left => 0,
        MouseButton::Middle => 1,
        MouseButton::Right => 2,
    }
}

/// Modifier bits of a mouse report: Shift 4, Alt 8, Ctrl 16.
pub open spec fn mouse_modifier_bits(m: KeyModifiers) -> int {
    (if m.shift { 4int } else { 0 }) + (if m.alt { 8int } else { 0 }) + (if m.control { 16int } else { 0 })
}

/// An SGR mouse report: `CSI < code ; column ; row` then `M` for a press or
/// motion and `m` for a release, with one-based coordinates.
pub open spec fn sgr_mouse(code: int, column: int, row: int, release: bool) -> Seq<u8> {
    seq![27u8, 91u8, 60u8] + decimal(code as nat) + seq![59u8] + decimal((column + 1) as nat) + seq![59u8]
        + decimal((row + 1) as nat) + seq![if release { 109u8 } else { 77u8 }]
}

/// The wheel is reported as buttons 64 (up), 65 (down), 66 (left) and 67
/// (right), plus the modifier bits, at the logical column, in every mode that
/// reports the mouse.
pub proof fn lemma_wheel_reports(e: MouseEvent, mode: MouseProtocolMode, col: u16)
    requires
        mode != MouseProtocolMode::Disabled,
    ensures
        e.kind == MouseEventKind::ScrollUp ==> spec_mouse_bytes(e, mode, MouseProtocolEncoding::Sgr, col)
            == sgr_mouse(64 + mouse_modifier_bits(e.modifiers), col as int, e.row as int, false),
        e.kind == MouseEventKind::ScrollDown ==> spec_mouse_bytes(e, mode, MouseProtocolEncoding::Sgr, col)
            == sgr_mouse(65 + mouse_modifier_bits(e.modifiers), col as int, e.row as int, false),
        e.kind == MouseEventKind::ScrollLeft ==> spec_mouse_bytes(e, mode, MouseProtocolEncoding::Sgr, col)
            == sgr_mouse(66 + mouse_modifier_bits(e.modifiers), col as int, e.row as int, false),
        e.kind == MouseEventKind::ScrollRight ==> spec_mouse_bytes(e, mode, MouseProtocolEncoding::Sgr, col)
            == sgr_mouse(67 + mouse_modifier_bits(e.modifiers), col as int, e.row as int, false),
        e.kind == MouseEventKind::ScrollUp && (col as int) < 223 && (e.row as int) < 223 && !e.modifiers.shift
            && !e.modifiers.alt && !e.modifiers.control ==> spec_mouse_bytes(
            e,
            mode,
            MouseProtocolEncoding::Default,
            col,
        ) == seq![27u8, 91u8, 77u8, 96u8, (col + 33) as u8, (e.row + 33) as u8],
        e.kind == MouseEventKind::ScrollDown && (col as int) < 223 && (e.row as int) < 223 && !e.modifiers.shift
            && !e.modifiers.alt && !e.modifiers.control ==> spec_mouse_bytes(
            e,
            mode,
            MouseProtocolEncoding::Default,
            col,
        ) == seq![27u8, 91u8, 77u8, 97u8, (col + 33) as u8, (e.row + 33) as u8],
{
}

/// Presses and releases in SGR reports: a press is its button number with
/// `M`, a release (in every mode but press-only) the same number with `m`;
/// with reporting off nothing is sent.
pub proof fn lemma_button_reports(e: MouseEvent, mode: MouseProtocolMode, col: u16)
    ensures
        mode == MouseProtocolMode::Disabled ==> spec_mouse_bytes(e, mode, MouseProtocolEncoding::Sgr, col)
            == Seq::<u8>::empty(),
        mode != MouseProtocolMode::Disabled ==> (e.kind matches MouseEventKind::Down(b) ==> spec_mouse_bytes(
            e,
            mode,
            MouseProtocolEncoding::Sgr,
            col,
        ) == sgr_mouse(button_number(b) + mouse_modifier_bits(e.modifiers), col as int, e.row as int, false)),
        mode != MouseProtocolMode::Disabled && mode != MouseProtocolMode::Press ==> (e.kind matches MouseEventKind::Up(b)
            ==> spec_mouse_bytes(e, mode, MouseProtocolEncoding::Sgr, col) == sgr_mouse(
            button_number(b) + mouse_modifier_bits(e.modifiers),
            col as int,
            e.row as int,
            true,
        )),
        mode == MouseProtocolMode::Press ==> (e.kind is Up ==> spec_mouse_bytes(e, mode, MouseProtocolEncoding::Sgr, col)
            == Seq::<u8>::empty()),
{
}

/// Motion in SGR reports: a drag adds 32 to its button when motion is
/// reported, plain motion is 35 and only in any-motion mode.
pub proof fn lemma_motion_reports(e: MouseEvent, mode: MouseProtocolMode, col: u16)
    ensures
        (mode == MouseProtocolMode::ButtonMotion || mode == MouseProtocolMode::AnyMotion) ==> (e.kind matches MouseEventKind::Drag(b)
            ==> spec_mouse_bytes(e, mode, MouseProtocolEncoding::Sgr, col) == sgr_mouse(
            32 + button_number(b) + mouse_modifier_bits(e.modifiers),
            col as int,
            e.row as int,
            false,
        )),
        (mode == MouseProtocolMode::Press || mode == MouseProtocolMode::PressRelease) ==> (e.kind is Drag
            ==> spec_mouse_bytes(e, mode, MouseProtocolEncoding::Sgr, col) == Seq::<u8>::empty()),
        mode == MouseProtocolMode::AnyMotion ==> (e.kind is Moved ==> spec_mouse_bytes(e, mode, MouseProtocolEncoding::Sgr, col)
            == sgr_mouse(35 + mouse_modifier_bits(e.modifiers), col as int, e.row as int, false)),
        mode != MouseProtocolMode::AnyMotion ==> (e.kind is Moved ==> spec_mouse_bytes(e, mode, MouseProtocolEncoding::Sgr, col)
            == Seq::<u8>::empty()),
{
}

/// A bracketed paste is the text between `CSI 200 ~` and `CSI 201 ~`; an
/// unbracketed one is the text alone.
pub proof fn lemma_paste_brackets(text: Seq<char>)
    ensures
        spec_paste_bytes(text, true) == seq![27u8, 91u8, 50u8, 48u8, 48u8, 126u8] + utf8(text) + seq![
            27u8,
            91u8,
            50u8,
            48u8,
            49u8,
            126u8,
        ],
        spec_paste_bytes(text, false) == utf8(text),
{
    assert(seq![27u8, 91u8] + seq![50u8, 48u8, 48u8, 126u8] =~= seq![27u8, 91u8, 50u8, 48u8, 48u8, 126u8]);
    assert(seq![27u8, 91u8] + seq![50u8, 48u8, 49u8, 126u8] =~= seq![27u8, 91u8, 50u8, 48u8, 49u8, 126u8]);
    let a = seq![27u8, 91u8];
    let b = seq![50u8, 48u8, 48u8, 126u8];
    let c = seq![50u8, 48u8, 49u8, 126u8];
    assert(a + b + utf8(text) + a + c =~= (a + b) + utf8(text) + (a + c));
}

/// Focus reports, when the child asked for them: gaining focus sends
/// `CSI I`, losing it `CSI O`, so the two are never confused; neither
/// changes the session's state or asks for a redraw. Without focus
/// reporting both are ignored.
pub proof fn lemma_focus_reports(
    s: InputState,
    native: Option<Seq<u8>>,
    modes: ChildModes,
    r: RendererView,
)
    ensures
        modes.focus_events ==> input_outcome(s, HostEvent::FocusGained, native, modes, r) == (
            s,
            ActionView::Send(seq![27u8, 91u8, 73u8], false),
        ),
        modes.focus_events ==> input_outcome(s, HostEvent::FocusLost, native, modes, r) == (
            s,
            ActionView::Send(seq![27u8, 91u8, 79u8], false),
        ),
        input_outcome(s, HostEvent::FocusGained, native, modes, r) != input_outcome(
            s,
            HostEvent::FocusLost,
            native,
            modes,
            r,
        ) || !modes.focus_events,
        !modes.focus_events ==> input_outcome(s, HostEvent::FocusGained, native, modes, r) == (
            s,
            ActionView::Ignore,
        ) && input_outcome(s, HostEvent::FocusLost, native, modes, r) == (s, ActionView::Ignore),
{
    if modes.focus_events {
        assert(seq![27u8, 91u8, 73u8][2] != seq![27u8, 91u8, 79u8][2]);
    }
}

/// The one-based column reported for the cursor: its own, held inside the
/// screen.
pub open spec fn reported_column(screen: ScreenState) -> nat {
    if (screen.cursor_col as int) < screen.cols as int {
        (screen.cursor_col + 1) as nat
    } else {
        screen.cols as nat
    }
}

/// Device status reports come from the logical screen: `CSI 5 n` is
/// answered `CSI 0 n` (ready), and `CSI 6 n` with the logical cursor as
/// `CSI row ; column R`, one-based; `CSI ? 6 n` the same with `?` after
/// `CSI`.
pub proof fn lemma_status_replies(screen: ScreenState, params: Seq<Vec<u16>>, focus: bool, sync: bool)
    requires
        screen.cols >= 1,
        params.len() >= 1,
        params[0]@.len() >= 1,
    ensures
        params[0]@[0] == 5 ==> csi_reply(screen, None, None, params, 'n', focus, sync) == seq![
            27u8,
            91u8,
            48u8,
            110u8,
        ],
        params[0]@[0] == 6 ==> csi_reply(screen, None, None, params, 'n', focus, sync) == seq![27u8, 91u8]
            + decimal((screen.cursor_row + 1) as nat) + seq![59u8] + decimal(reported_column(screen))
            + seq![82u8],
        params[0]@[0] == 6 ==> csi_reply(screen, Some(63u8), None, params, 'n', focus, sync) == seq![
            27u8,
            91u8,
            63u8,
        ] + decimal((screen.cursor_row + 1) as nat) + seq![59u8] + decimal(reported_column(screen))
            + seq![82u8],
{
    assert(seq![27u8, 91u8] + Seq::<u8>::empty() =~= seq![27u8, 91u8]);
    assert(seq![27u8, 91u8] + seq![63u8] =~= seq![27u8, 91u8, 63u8]);
}

/// Identification: `CSI c` (or `CSI 0 c`) is answered `CSI ? 1 ; 2 c`,
/// `CSI > c` is answered `CSI > 0 ; 100 ; 0 c`, `CSI ? u` is answered
/// `CSI ? 0 u`, and `CSI 18 t` reports the text area as `CSI 8 ; rows ;
/// columns t`.
pub proof fn lemma_identity_replies(screen: ScreenState, params: Seq<Vec<u16>>, focus: bool, sync: bool)
    requires
        screen.cols >= 1,
    ensures
        params.len() == 0 ==> csi_reply(screen, None, None, params, 'c', focus, sync) == seq![
            27u8,
            91u8,
            63u8,
            49u8,
            59u8,
            50u8,
            99u8,
        ],
        params.len() >= 1 && params[0]@.len() >= 1 && params[0]@[0] == 0 ==> csi_reply(
            screen,
            None,
            None,
            params,
            'c',
            focus,
            sync,
        ) == seq![27u8, 91u8, 63u8, 49u8, 59u8, 50u8, 99u8],
        params.len() == 0 ==> csi_reply(screen, Some(62u8), None, params, 'c', focus, sync) == seq![
            27u8,
            91u8,
            62u8,
            48u8,
            59u8,
            49u8,
            48u8,
            48u8,
            59u8,
            48u8,
            99u8,
        ],
        csi_reply(screen, Some(63u8), None, params, 'u', focus, sync) == seq![27u8, 91u8, 63u8, 48u8, 117u8],
        params.len() >= 1 && params[0]@.len() >= 1 && params[0]@[0] == 18 ==> csi_reply(
            screen,
            None,
            None,
            params,
            't',
            focus,
            sync,
        ) == seq![27u8, 91u8, 56u8, 59u8] + decimal(screen.rows as nat) + seq![59u8] + decimal(
            screen.cols as nat,
        ) + seq![116u8],
{
    assert(seq![27u8, 91u8] + seq![63u8, 49u8, 59u8, 50u8, 99u8] =~= seq![27u8, 91u8, 63u8, 49u8, 59u8, 50u8, 99u8]);
    assert(seq![27u8, 91u8] + seq![62u8, 48u8, 59u8, 49u8, 48u8, 48u8, 59u8, 48u8, 99u8] =~= seq![
        27u8,
        91u8,
        62u8,
        48u8,
        59u8,
        49u8,
        48u8,
        48u8,
        59u8,
        48u8,
        99u8,
    ]);
    assert(seq![27u8, 91u8] + seq![63u8, 48u8, 117u8] =~= seq![27u8, 91u8, 63u8, 48u8, 117u8]);
    assert(seq![27u8, 91u8] + seq![56u8, 59u8] =~= seq![27u8, 91u8, 56u8, 59u8]);
}

/// The state DECRQM reports for a mode: 1 when set, 2 when reset, 0 for a
/// mode that is not tracked.
pub open spec fn mode_state(on: bool) -> nat {
    if on {
        1
    } else {
        2
    }
}

/// Mode reports `CSI ? mode ; state $ y` for cursor keys (1), cursor
/// visibility (25), focus events (1004), the alternate screen (1049),
/// bracketed paste (2004) and synchronized output (2026), read from the
/// logical screen and the tracked flags; any other mode is reported 0.
pub proof fn lemma_mode_reports(screen: ScreenState, params: Seq<Vec<u16>>, focus: bool, sync: bool, mode: u16)
    requires
        screen.cols >= 1,
        params.len() >= 1,
        params[0]@.len() >= 1,
        params[0]@[0] == mode,
    ensures
        csi_reply(screen, Some(63u8), Some(36u8), params, 'p', focus, sync) == seq![27u8, 91u8, 63u8]
            + decimal(mode as nat) + seq![59u8] + decimal(
            if mode == 1 {
                mode_state(screen.application_cursor)
            } else if mode == 25 {
                mode_state(!screen.hide_cursor)
            } else if mode == 1004 {
                mode_state(focus)
            } else if mode == 1049 {
                mode_state(screen.alternate_screen)
            } else if mode == 2004 {
                mode_state(screen.bracketed_paste)
            } else if mode == 2026 {
                mode_state(sync)
            } else {
                0
            },
        ) + seq![36u8, 121u8],
{
    assert(seq![27u8, 91u8] + seq![63u8] =~= seq![27u8, 91u8, 63u8]);
}

/// `CSI ? 1004 h` turns focus reporting on and `CSI ? 1004 l` off (and
/// likewise 2026 for synchronized output); a CSI without `?` or without the
/// mode leaves the flag as it was; `CSI 3 J` and only that erases the
/// saved lines.
pub proof fn lemma_mode_switches(before: bool, mode: u16, params: Seq<Vec<u16>>, i2: Option<u8>)
    ensures
        (exists|i: int| 0 <= i < params.len() && params[i]@.len() > 0 && params[i]@[0] == mode) ==> mode_after(
            before,
            mode,
            Some(63u8),
            None,
            params,
            'h',
        ) && !mode_after(before, mode, Some(63u8), None, params, 'l'),
        (forall|i: int| 0 <= i < params.len() && params[i]@.len() > 0 ==> params[i]@[0] != mode) ==> mode_after(
            before,
            mode,
            Some(63u8),
            None,
            params,
            'h',
        ) == before && mode_after(before, mode, Some(63u8), None, params, 'l') == before,
        mode_after(before, mode, None, i2, params, 'h') == before,
        mode_after(before, mode, None, i2, params, 'l') == before,
        params.len() >= 1 && params[0]@.len() >= 1 && params[0]@[0] == 3 ==> is_erase_saved(None, None, params, 'J'),
        !is_erase_saved(None, None, params, 'K'),
        !(params.len() >= 1 && params[0]@.len() >= 1 && params[0]@[0] == 3) ==> !is_erase_saved(None, None, params, 'J'),
{
}

/// Enter and the control punctuation: Shift+Enter is `CSI 13 ; digit u`,
/// Ctrl+Enter a plain CR and Alt+Enter ESC CR; Alt+Backspace is ESC DEL;
/// Ctrl with space, `@` or `2` sends NUL, with `[` ESC, with `\\` FS, with
/// `]` GS, with `^` RS, with `_` US, and with `?` or `8` DEL; Ctrl+`4` to
/// Ctrl+`7` send FS to US.
pub proof fn lemma_enter_and_controls(app: bool, kind: KeyEventKind)
    requires
        kind != KeyEventKind::Release,
    ensures
        spec_key_bytes(key_event(KeyCode::Enter, KeyModifiers { shift: true, alt: false, control: false }, kind), app)
            == seq![27u8, 91u8, 49u8, 51u8, 59u8, 50u8, 117u8],
        spec_key_bytes(key_event(KeyCode::Enter, KeyModifiers { shift: false, alt: false, control: true }, kind), app)
            == seq![13u8],
        spec_key_bytes(key_event(KeyCode::Enter, KeyModifiers { shift: false, alt: true, control: false }, kind), app)
            == seq![27u8, 13u8],
        spec_key_bytes(key_event(KeyCode::Backspace, KeyModifiers { shift: false, alt: true, control: false }, kind), app)
            == seq![27u8, 127u8],
        spec_key_bytes(key_event(KeyCode::Char(' '), ctrl(), kind), app) == seq![0u8],
        spec_key_bytes(key_event(KeyCode::Char('@'), ctrl(), kind), app) == seq![0u8],
        spec_key_bytes(key_event(KeyCode::Char('2'), ctrl(), kind), app) == seq![0u8],
        spec_key_bytes(key_event(KeyCode::Char('['), ctrl(), kind), app) == seq![27u8],
        spec_key_bytes(key_event(KeyCode::Char('\\'), ctrl(), kind), app) == seq![28u8],
        spec_key_bytes(key_event(KeyCode::Char(']'), ctrl(), kind), app) == seq![29u8],
        spec_key_bytes(key_event(KeyCode::Char('^'), ctrl(), kind), app) == seq![30u8],
        spec_key_bytes(key_event(KeyCode::Char('_'), ctrl(), kind), app) == seq![31u8],
        spec_key_bytes(key_event(KeyCode::Char('?'), ctrl(), kind), app) == seq![127u8],
        spec_key_bytes(key_event(KeyCode::Char('8'), ctrl(), kind), app) == seq![127u8],
        spec_key_bytes(key_event(KeyCode::Char('4'), ctrl(), kind), app) == seq![28u8],
        spec_key_bytes(key_event(KeyCode::Char('7'), ctrl(), kind), app) == seq![31u8],
{
    assert(decimal(13) =~= decimal(1).push(51u8));
    assert(decimal(1) =~= seq![49u8]);
    assert(decimal(2) =~= seq![50u8]);
}

/// Ctrl alone.
pub open spec fn ctrl() -> KeyModifiers {
    KeyModifiers { shift: false, alt: false, control: true }
}

/// The legacy `CSI M` report: the code and both one-based coordinates, each
/// plus 32, as single bytes; a release is code 3 whatever the button; a
/// coordinate past 222 cannot be sent this way, so nothing is sent.
pub proof fn lemma_legacy_reports(e: MouseEvent, mode: MouseProtocolMode, col: u16)
    requires
        mode != MouseProtocolMode::Disabled,
        !e.modifiers.shift && !e.modifiers.alt && !e.modifiers.control,
    ensures
        (col as int) < 223 && (e.row as int) < 223 ==> (e.kind matches MouseEventKind::Down(b)
            ==> spec_mouse_bytes(e, mode, MouseProtocolEncoding::Default, col) == seq![
            27u8,
            91u8,
            77u8,
            (32 + button_number(b)) as u8,
            (col + 33) as u8,
            (e.row + 33) as u8,
        ]),
        (col as int) < 223 && (e.row as int) < 223 && mode != MouseProtocolMode::Press ==> (e.kind is Up
            ==> spec_mouse_bytes(e, mode, MouseProtocolEncoding::Default, col) == seq![
            27u8,
            91u8,
            77u8,
            35u8,
            (col + 33) as u8,
            (e.row + 33) as u8,
        ]),
        (col as int) >= 223 ==> (e.kind is Down ==> spec_mouse_bytes(e, mode, MouseProtocolEncoding::Default, col)
            == Seq::<u8>::empty()),
{
}

/// The session's own keys. Ctrl+] is a prefix: alone it sends nothing and
/// waits; then `q` quits, `r` switches correction and redraws, a second
/// Ctrl+] sends one GS byte (0x1d) to the child, and any other key is sent
/// after a GS byte. Shift+PageUp and Shift+PageDown browse the scrollback by
/// a screen less one row (at least one), never past the retained history and
/// never below the live view; any other key returns to the live view.
pub proof fn lemma_session_keys(s: InputState, modes: ChildModes, r: RendererView, key: KeyEvent)
    requires
        key.kind != KeyEventKind::Release,
    ensures
        !s.prefix ==> input_outcome(s, HostEvent::Key(key_event(KeyCode::Char(']'), ctrl(), key.kind)), None, modes, r)
            == (InputState { prefix: true, ..s }, ActionView::Ignore),
        s.prefix ==> input_outcome(s, HostEvent::Key(key_event(KeyCode::Char('q'), key.modifiers, key.kind)), None, modes, r)
            == (InputState { prefix: false, ..s }, ActionView::Quit),
        s.prefix ==> input_outcome(s, HostEvent::Key(key_event(KeyCode::Char('r'), key.modifiers, key.kind)), None, modes, r)
            == (InputState { prefix: false, enabled: !s.enabled, ..s }, ActionView::Redraw),
        s.prefix ==> input_outcome(s, HostEvent::Key(key_event(KeyCode::Char(']'), ctrl(), key.kind)), None, modes, r)
            == (InputState { prefix: false, ..s }, ActionView::Send(seq![0x1du8], false)),
        s.prefix && key.code != KeyCode::Char('q') && key.code != KeyCode::Char('r') && spec_key_bytes(key, false)
            != seq![0x1du8] ==> input_outcome(s, HostEvent::Key(key), None, modes, r) == (
            InputState { prefix: false, ..s },
            ActionView::Send(seq![0x1du8] + spec_key_bytes(key, modes.application_cursor), false),
        ),
        !s.prefix && key.modifiers.shift && key.code == KeyCode::PageUp ==> ({
            let up = input_outcome(s, HostEvent::Key(key), None, modes, r).0.scrollback;
            let step: int = if modes.rows >= 2 { modes.rows - 1 } else { 1 };
            &&& up <= s.history_limit
            &&& up >= s.scrollback || up == s.history_limit
            &&& (s.scrollback + step <= s.history_limit ==> up == s.scrollback + step)
            &&& (s.scrollback + step > s.history_limit && s.scrollback <= s.history_limit ==> up
                == s.history_limit)
        }),
        !s.prefix && key.modifiers.shift && key.code == KeyCode::PageDown ==> ({
            let down = input_outcome(s, HostEvent::Key(key), None, modes, r).0.scrollback;
            let step: int = if modes.rows >= 2 { modes.rows - 1 } else { 1 };
            down == if s.scrollback >= step { s.scrollback - step } else { 0 }
        }),
        !s.prefix && spec_key_bytes(key, false) != seq![0x1du8] && !(key.modifiers.shift && (key.code
            == KeyCode::PageUp || key.code == KeyCode::PageDown)) ==> input_outcome(s, HostEvent::Key(key), None, modes, r)
            == (
            InputState { scrollback: 0, ..s },
            ActionView::Send(spec_key_bytes(key, modes.application_cursor), s.scrollback > 0),
        ),
{
    let gs = key_event(KeyCode::Char(']'), ctrl(), key.kind);
    assert(spec_key_bytes(gs, false) == seq![0x1du8]);
}

/// The wheel browses the host's view of the scrollback three rows at a time
/// when the child does not take the mouse or the view is already scrolled
/// back (never in the alternate screen, where it is dropped); otherwise mouse
/// events on the child's screen are reported to it at the logical column
/// under the pointer. Paste returns to the live view and sends the text;
/// a resize is passed on.
pub proof fn lemma_pointer_routing(s: InputState, modes: ChildModes, r: RendererView, m: MouseEvent, text: String, c: u16, rows: u16)
    ensures
        (m.kind == MouseEventKind::ScrollDown) && (s.scrollback > 0 || modes.mouse_mode == MouseProtocolMode::Disabled)
            && !modes.alternate_screen ==> input_outcome(s, HostEvent::Mouse(m), None, modes, r) == (
            InputState { scrollback: (if s.scrollback >= 3 { s.scrollback - 3 } else { 0 }) as usize, ..s },
            ActionView::Redraw,
        ),
        (m.kind == MouseEventKind::ScrollUp) && (s.scrollback > 0 || modes.mouse_mode == MouseProtocolMode::Disabled)
            && !modes.alternate_screen && s.scrollback + 3 <= s.history_limit ==> input_outcome(
            s,
            HostEvent::Mouse(m),
            None,
            modes,
            r,
        ) == (InputState { scrollback: (s.scrollback + 3) as usize, ..s }, ActionView::Redraw),
        (m.kind == MouseEventKind::ScrollUp || m.kind == MouseEventKind::ScrollDown) && (s.scrollback > 0
            || modes.mouse_mode == MouseProtocolMode::Disabled) && modes.alternate_screen ==> input_outcome(
            s,
            HostEvent::Mouse(m),
            None,
            modes,
            r,
        ) == (s, ActionView::Ignore),
        s.scrollback == 0 && modes.mouse_mode != MouseProtocolMode::Disabled && m.column >= margin_of(r) && m.row
            < modes.rows ==> input_outcome(s, HostEvent::Mouse(m), None, modes, r) == (
            s,
            ActionView::Send(
                spec_mouse_bytes(m, modes.mouse_mode, modes.mouse_encoding, spec_logical_column(r, m.row, m.column)),
                false,
            ),
        ),
        input_outcome(s, HostEvent::Paste(text), None, modes, r) == (
            InputState { scrollback: 0, ..s },
            ActionView::Send(spec_paste_bytes(text@, modes.bracketed_paste), true),
        ),
        input_outcome(s, HostEvent::Resize(c, rows), None, modes, r) == (s, ActionView::Resize(c, rows)),
{
}

/// Colour queries get a fixed dark palette: `OSC 10 ; ?` (foreground) is
/// answered `OSC 10 ; rgb:dddd/dddd/dddd ST` and `OSC 11 ; ?` (background)
/// `OSC 11 ; rgb:1111/1111/1111 ST`; other OSC strings get no reply.
pub proof fn lemma_colour_queries(params: Seq<Vec<u8>>)
    requires
        params.len() >= 2,
        params[1]@ == seq![63u8],
    ensures
        params[0]@ == seq![49u8, 48u8] ==> colour_reply(params) == seq![27u8, 93u8, 49u8, 48u8, 59u8]
            + "rgb:dddd/dddd/dddd"@.map_values(|c: char| c as u8) + seq![27u8, 92u8],
        params[0]@ == seq![49u8, 49u8] ==> colour_reply(params) == seq![27u8, 93u8, 49u8, 49u8, 59u8]
            + "rgb:1111/1111/1111"@.map_values(|c: char| c as u8) + seq![27u8, 92u8],
        params[0]@ != seq![49u8, 48u8] && params[0]@ != seq![49u8, 49u8] ==> colour_reply(params)
            == Seq::<u8>::empty(),
{
    reveal_strlit("rgb:dddd/dddd/dddd");
    reveal_strlit("rgb:1111/1111/1111");
    if params[0]@ == seq![49u8, 48u8] {
        assert(colour_reply(params) =~= seq![27u8, 93u8, 49u8, 48u8, 59u8]
            + "rgb:dddd/dddd/dddd"@.map_values(|c: char| c as u8) + seq![27u8, 92u8]);
    }
    if params[0]@ == seq![49u8, 49u8] {
        assert(colour_reply(params) =~= seq![27u8, 93u8, 49u8, 49u8, 59u8]
            + "rgb:1111/1111/1111"@.map_values(|c: char| c as u8) + seq![27u8, 92u8]);
    }
}

/// OSC 8 links: fewer than three parameters, or more than 9216 bytes in all,
/// close the link; so does a destination that is empty, longer than 8192
/// bytes or holds a control character. An accepted link keeps the whole
/// destination and gets an identifier namespaced by this process: the
/// child's own `id=` value as `rtl-PID-id-VALUE`, or `rtl-PID-auto-N` with
/// the next serial.
pub proof fn lemma_link_rules(params: Seq<Vec<u8>>, pid: u32, serial: u64)
    ensures
        params.len() < 3 ==> osc8_link(params, pid, serial) is None,
        osc_size(params) > 9216 ==> osc8_link(params, pid, serial) is None,
        (osc8_parts(params) matches Some((u, p)) && (u.len() == 0 || utf8(u).len() > 8192 || exists|i: int|
            0 <= i < u.len() && is_control(#[trigger] u[i]))) ==> osc8_link(params, pid, serial) is None,
        osc8_link(params, pid, serial) matches Some((u, id)) ==> ({
            &&& u.len() > 0
            &&& forall|i: int| 0 <= i < u.len() ==> !is_control(#[trigger] u[i])
            &&& osc8_parts(params) matches Some((v, p)) && v == u && id == (match id_field(p) {
                Some(x) if x.len() > 0 => seq!['r', 't', 'l', '-'] + digits(pid as nat) + seq!['-', 'i', 'd', '-'] + x,
                _ => seq!['r', 't', 'l', '-'] + digits(pid as nat) + seq!['-', 'a', 'u', 't', 'o', '-'] + digits(
                    (if serial == u64::MAX { 0 } else { serial + 1 }) as nat,
                ),
            })
        }),
{
}

} // verus!
