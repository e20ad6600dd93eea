//! Routes host input: the Ctrl+] prefix commands, scrollback browsing, and
//! everything else encoded for the child.
use vstd::prelude::*;
use crate::display::renderer::{margin_of, spec_logical_column, Renderer, RendererView};
use crate::input::{
    key_bytes,
    mouse_bytes,
    paste_bytes,
    spec_key_bytes,
    spec_mouse_bytes,
    spec_paste_bytes,
    KeyCode,
    KeyEvent,
    KeyEventKind,
    MouseEvent,
    MouseEventKind,
    MouseProtocolEncoding,
    MouseProtocolMode,
};

verus! {

/// A host input event.
pub enum HostEvent {
    Key(KeyEvent),
    Paste(String),
    Resize(u16, u16),
    FocusGained,
    FocusLost,
    Mouse(MouseEvent),
    Other,
}

pub enum EventView {
    Key(KeyEvent),
    Paste(Seq<char>),
    Resize(u16, u16),
    FocusGained,
    FocusLost,
    Mouse(MouseEvent),
    Other,
}

impl View for HostEvent {
    type V = EventView;

    open spec fn view(&self) -> EventView {
        match self {
            HostEvent::Key(k) => EventView::Key(*k),
            HostEvent::Paste(t) => EventView::Paste(t@),
            HostEvent::Resize(c, r) => EventView::Resize(*c, *r),
            HostEvent::FocusGained => EventView::FocusGained,
            HostEvent::FocusLost => EventView::FocusLost,
            HostEvent::Mouse(m) => EventView::Mouse(*m),
            HostEvent::Other => EventView::Other,
        }
    }
}

pub struct InputView {
    pub event: EventView,
    pub native_key: Option<Seq<u8>>,
}

impl View for HostInput {
    type V = InputView;

    open spec fn view(&self) -> InputView {
        InputView { event: self.event@, native_key: native_view(self.native_key) }
    }
}

/// A host event, with the bytes of the native key record when the host
/// delivered one (they are forwarded unchanged).
pub struct HostInput {
    pub event: HostEvent,
    pub native_key: Option<Vec<u8>>,
}

/// What the session does with an input.
pub enum InputAction {
    Ignore,
    Redraw,
    Resize(u16, u16),
    Quit,
    Send { bytes: Vec<u8>, redraw: bool },
}

pub enum ActionView {
    Ignore,
    Redraw,
    Resize(u16, u16),
    Quit,
    Send(Seq<u8>, bool),
}

impl View for InputAction {
    type V = ActionView;

    open spec fn view(&self) -> ActionView {
        match self {
            InputAction::Ignore => ActionView::Ignore,
            InputAction::Redraw => ActionView::Redraw,
            InputAction::Resize(c, r) => ActionView::Resize(*c, *r),
            InputAction::Quit => ActionView::Quit,
            InputAction::Send { bytes, redraw } => ActionView::Send(bytes@, *redraw),
        }
    }
}

/// The child's terminal modes that routing depends on.
#[derive(Clone, Copy, Debug, PartialEq, Eq, Structural)]
pub struct ChildModes {
    /// Rows of the child's screen.
    pub rows: u16,
    pub application_cursor: bool,
    pub bracketed_paste: bool,
    pub alternate_screen: bool,
    pub mouse_mode: MouseProtocolMode,
    pub mouse_encoding: MouseProtocolEncoding,
    /// Whether the child asked for focus reports.
    pub focus_events: bool,
}

/// Input state: correction on or off, how far scrollback is browsed, and
/// whether Ctrl+] was just pressed.
pub struct SessionInput {
    pub enabled: bool,
    pub scrollback: usize,
    /// Ctrl+] was pressed and the next key is a command.
    pub prefix: bool,
    /// How far back browsing may go.
    pub history_limit: usize,
}

pub struct InputState {
    pub enabled: bool,
    pub scrollback: usize,
    pub prefix: bool,
    pub history_limit: usize,
}

impl View for SessionInput {
    type V = InputState;

    open spec fn view(&self) -> InputState {
        InputState {
            enabled: self.enabled,
            scrollback: self.scrollback,
            prefix: self.prefix,
            history_limit: self.history_limit,
        }
    }
}

pub open spec fn prefix_byte() -> Seq<u8> {
    seq![0x1du8]
}

/// A key encoded for the child: the native record when there is one.
pub open spec fn encoded_key(native: Option<Seq<u8>>, key: KeyEvent, application_cursor: bool) -> Seq<u8> {
    match native {
        Some(b) => b,
        None => spec_key_bytes(key, application_cursor),
    }
}

pub open spec fn page_step(rows: u16) -> int {
    if rows >= 2 {
        rows - 1
    } else {
        1
    }
}

/// Moving up by `step` rows, at most to the retention limit.
pub open spec fn scroll_up(s: InputState, step: int) -> usize {
    let up = if s.scrollback + step > usize::MAX {
        usize::MAX as int
    } else {
        s.scrollback + step
    };
    (if up < s.history_limit {
        up
    } else {
        s.history_limit as int
    }) as usize
}

pub open spec fn scroll_down(s: InputState, step: int) -> usize {
    (if s.scrollback >= step {
        s.scrollback - step
    } else {
        0
    }) as usize
}

pub open spec fn native_view(n: Option<Vec<u8>>) -> Option<Seq<u8>> {
    match n {
        Some(b) => Some(b@),
        None => None,
    }
}

/// A key press: prefix commands, scrollback paging, or bytes for the child.
pub open spec fn key_outcome(
    s: InputState,
    key: KeyEvent,
    native: Option<Seq<u8>>,
    modes: ChildModes,
) -> (InputState, ActionView) {
    let is_prefix = spec_key_bytes(key, false) == prefix_byte();
    let encoded = encoded_key(native, key, modes.application_cursor);
    if key.kind == KeyEventKind::Release {
        (s, ActionView::Ignore)
    } else if s.prefix {
        let t = InputState { prefix: false, ..s };
        if key.code == KeyCode::Char('r') {
            (InputState { enabled: !s.enabled, ..t }, ActionView::Redraw)
        } else if key.code == KeyCode::Char('q') {
            (t, ActionView::Quit)
        } else {
            (t, ActionView::Send((if is_prefix { Seq::empty() } else { prefix_byte() }) + encoded, false))
        }
    } else if is_prefix {
        (InputState { prefix: true, ..s }, ActionView::Ignore)
    } else if key.modifiers.shift && (key.code == KeyCode::PageUp || key.code == KeyCode::PageDown) {
        let step = page_step(modes.rows);
        (
            InputState {
                scrollback: if key.code == KeyCode::PageUp {
                    scroll_up(s, step)
                } else {
                    scroll_down(s, step)
                },
                ..s
            },
            ActionView::Redraw,
        )
    } else {
        (InputState { scrollback: 0, ..s }, ActionView::Send(encoded, s.scrollback > 0))
    }
}

/// What an input does to the state and what the session does with it.
pub open spec fn input_outcome(
    s: InputState,
    event: HostEvent,
    native: Option<Seq<u8>>,
    modes: ChildModes,
    r: RendererView,
) -> (InputState, ActionView) {
    match event {
        HostEvent::Key(key) => key_outcome(s, key, native, modes),
        HostEvent::Paste(text) => (
            InputState { scrollback: 0, ..s },
            ActionView::Send(spec_paste_bytes(text@, modes.bracketed_paste), true),
        ),
        HostEvent::Resize(c, rows) => (s, ActionView::Resize(c, rows)),
        HostEvent::FocusGained => if modes.focus_events {
            (s, ActionView::Send(seq![27u8, 91u8, 73u8], false))
        } else {
            (s, ActionView::Ignore)
        },
        HostEvent::FocusLost => if modes.focus_events {
            (s, ActionView::Send(seq![27u8, 91u8, 79u8], false))
        } else {
            (s, ActionView::Ignore)
        },
        HostEvent::Mouse(m) => if (m.kind == MouseEventKind::ScrollUp || m.kind
            == MouseEventKind::ScrollDown) && (s.scrollback > 0 || modes.mouse_mode
            == MouseProtocolMode::Disabled) {
            if modes.alternate_screen {
                (s, ActionView::Ignore)
            } else {
                (
                    InputState {
                        scrollback: if m.kind == MouseEventKind::ScrollUp {
                            scroll_up(s, 3)
                        } else {
                            scroll_down(s, 3)
                        },
                        ..s
                    },
                    ActionView::Redraw,
                )
            }
        } else if s.scrollback == 0 && m.column >= margin_of(r) && m.row < modes.rows {
            (
                s,
                ActionView::Send(
                    spec_mouse_bytes(
                        m,
                        modes.mouse_mode,
                        modes.mouse_encoding,
                        spec_logical_column(r, m.row, m.column),
                    ),
                    false,
                ),
            )
        } else {
            (s, ActionView::Ignore)
        },
        HostEvent::Other => (s, ActionView::Ignore),
    }
}

fn up_by(scrollback: usize, step: usize, limit: usize) -> (r: usize)
    ensures
        r == scroll_up(
            InputState { enabled: false, scrollback, prefix: false, history_limit: limit },
            step as int,
        ),
{
    let up = scrollback.saturating_add(step);
    if up < limit {
        up
    } else {
        limit
    }
}

fn down_by(scrollback: usize, step: usize) -> (r: usize)
    ensures
        r == scroll_down(
            InputState { enabled: false, scrollback, prefix: false, history_limit: 0 },
            step as int,
        ),
{
    scrollback.saturating_sub(step)
}

impl SessionInput {

    /// Correction starts on unless disabled; browsing is limited to the
    /// retained history.
    pub fn new(no_bidi: bool, history_limit: usize) -> (s: SessionInput)
        ensures
            s@ == (InputState { enabled: !no_bidi, scrollback: 0, prefix: false, history_limit }),
    {
        SessionInput { enabled: !no_bidi, scrollback: 0, prefix: false, history_limit }
    }

    fn key(&mut self, key: KeyEvent, native: Option<Vec<u8>>, modes: &ChildModes) -> (a: InputAction)
        ensures
            (final(self)@, a@) == key_outcome(old(self)@, key, native_view(native), *modes),
    {
        if key.kind == KeyEventKind::Release {
            return InputAction::Ignore;
        }
        let probe = key_bytes(key, false);
        let is_prefix = probe.len() == 1 && probe[0] == 0x1du8;
        assert(is_prefix == (probe@ == prefix_byte())) by {
            if is_prefix {
                assert(probe@ =~= prefix_byte());
            }
        };
        let encoded = match native {
            Some(b) => b,
            None => key_bytes(key, modes.application_cursor),
        };
        if self.prefix {
            self.prefix = false;
            match key.code {
                KeyCode::Char('r') => {
                    self.enabled = !self.enabled;
                    return InputAction::Redraw;
                },
                KeyCode::Char('q') => {
                    return InputAction::Quit;
                },
                _ => {
                    let mut bytes: Vec<u8> = if is_prefix {
                        Vec::new()
                    } else {
                        vec![0x1du8]
                    };
                    let ghost head = bytes@;
                    crate::bytes::push_bytes(&mut bytes, encoded.as_slice());
                    assert(head =~= if is_prefix {
                        Seq::empty()
                    } else {
                        prefix_byte()
                    });
                    return InputAction::Send { bytes, redraw: false };
                },
            }
        } else if is_prefix {
            self.prefix = true;
            return InputAction::Ignore;
        } else if key.modifiers.shift && (key.code == KeyCode::PageUp || key.code
            == KeyCode::PageDown) {
            let step: usize = if modes.rows >= 2 {
                (modes.rows - 1) as usize
            } else {
                1
            };
            self.scrollback = if key.code == KeyCode::PageUp {
                up_by(self.scrollback, step, self.history_limit)
            } else {
                down_by(self.scrollback, step)
            };
            return InputAction::Redraw;
        } else {
            let redraw = self.scrollback > 0;
            self.scrollback = 0;
            return InputAction::Send { bytes: encoded, redraw };
        }
    }

    /// Decides what one host input does.
    pub fn handle(&mut self, input: HostInput, modes: &ChildModes, renderer: &Renderer) -> (a:
        InputAction)
        ensures
            (final(self)@, a@) == input_outcome(
                old(self)@,
                input.event,
                native_view(input.native_key),
                *modes,
                renderer@,
            ),
    {
        let HostInput { event, native_key } = input;
        match event {
            HostEvent::Key(key) => self.key(key, native_key, modes),
            HostEvent::Paste(text) => {
                self.scrollback = 0;
                InputAction::Send { bytes: paste_bytes(text.as_str(), modes.bracketed_paste), redraw: true }
            },
            HostEvent::Resize(cols, rows) => InputAction::Resize(cols, rows),
            HostEvent::FocusGained => if modes.focus_events {
                let bytes = vec![27u8, 91u8, 73u8];
                assert(bytes@ =~= seq![27u8, 91u8, 73u8]);
                InputAction::Send { bytes, redraw: false }
            } else {
                InputAction::Ignore
            },
            HostEvent::FocusLost => if modes.focus_events {
                let bytes = vec![27u8, 91u8, 79u8];
                assert(bytes@ =~= seq![27u8, 91u8, 79u8]);
                InputAction::Send { bytes, redraw: false }
            } else {
                InputAction::Ignore
            },
            HostEvent::Mouse(m) => {
                let wheel = m.kind == MouseEventKind::ScrollUp || m.kind == MouseEventKind::ScrollDown;
                if wheel && (self.scrollback > 0 || modes.mouse_mode == MouseProtocolMode::Disabled) {
                    if modes.alternate_screen {
                        return InputAction::Ignore;
                    }
                    self.scrollback = if m.kind == MouseEventKind::ScrollUp {
                        up_by(self.scrollback, 3, self.history_limit)
                    } else {
                        down_by(self.scrollback, 3)
                    };
                    InputAction::Redraw
                } else if self.scrollback == 0 && m.column >= renderer.margin() && m.row < modes.rows {
                    let col = renderer.logical_column(m.row, m.column);
                    InputAction::Send {
                        bytes: mouse_bytes(m, modes.mouse_mode, modes.mouse_encoding, col),
                        redraw: false,
                    }
                } else {
                    InputAction::Ignore
                }
            },
            HostEvent::Other => InputAction::Ignore,
        }
    }
}

/// Browsing never goes further back than the retained history: a state
/// within the limit stays within it, whatever the input.
pub proof fn lemma_scrollback_bounded(
    s: InputState,
    event: HostEvent,
    native: Option<Seq<u8>>,
    modes: ChildModes,
    r: RendererView,
)
    requires
        s.scrollback <= s.history_limit,
    ensures
        input_outcome(s, event, native, modes, r).0.scrollback <= input_outcome(
            s,
            event,
            native,
            modes,
            r,
        ).0.history_limit,
        input_outcome(s, event, native, modes, r).0.history_limit == s.history_limit,
{
}

} // verus!
