//! The session loop's decisions, from its state, the time (in milliseconds
//! of a monotonic clock) and what happened: when to end, when to render, when
//! to capture the mouse and what to do with a routed input. The loop performs
//! the I/O these decisions call for.
use vstd::prelude::*;
use crate::input::MouseProtocolMode;
use crate::session::interaction::{ActionView, InputAction};

verus! {

/// Milliseconds from `t` to `now`; none when the clock is behind `t`.
pub open spec fn elapsed(now: u64, t: u64) -> u64 {
    if now >= t {
        (now - t) as u64
    } else {
        0
    }
}

fn since(now: u64, t: u64) -> (r: u64)
    ensures
        r == elapsed(now, t),
{
    now.saturating_sub(t)
}

/// The state the loop keeps between iterations.
pub struct Engine {
    /// The host shows an outdated frame.
    pub dirty: bool,
    /// The child's output ended.
    pub eof: bool,
    /// The child's exit status and when it was seen.
    pub exit: Option<(u32, u64)>,
    /// When a termination request arrived, and the status to exit with.
    pub shutdown: Option<(u64, u32)>,
    /// When the output pipe failed while the child may still run.
    pub pipe_error: Option<u64>,
    /// When the last frame was drawn; none before the first.
    pub last_render: Option<u64>,
    /// Since when the child holds synchronized output.
    pub sync_started: Option<u64>,
    /// Whether the host reports the mouse.
    pub mouse_capture: bool,
    pub last_size_check: u64,
    /// The host's columns and rows.
    pub size: (u16, u16),
}

/// What the loop does after an input was routed.
pub enum Step {
    Continue,
    /// Resize the child and the parser to the host's new size.
    Resize(u16, u16),
    /// Send these bytes to the child.
    Send(Vec<u8>),
    /// Kill the child and end with this status.
    Quit(u32),
}

pub enum StepView {
    Continue,
    Resize(u16, u16),
    Send(Seq<u8>),
    Quit(u32),
}

impl View for Step {
    type V = StepView;

    open spec fn view(&self) -> StepView {
        match self {
            Step::Continue => StepView::Continue,
            Step::Resize(c, r) => StepView::Resize(*c, *r),
            Step::Send(b) => StepView::Send(b@),
            Step::Quit(c) => StepView::Quit(*c),
        }
    }
}

/// Whether synchronized output has been held long enough (250 ms) or is off.
pub open spec fn sync_ready(e: Engine, now: u64) -> bool {
    match e.sync_started {
        None => true,
        Some(t) => elapsed(now, t) >= 250,
    }
}

/// A frame is due when something changed, the host is wide enough (two
/// columns on Windows), and either the child exited or synchronized output
/// allows it and 16 ms passed since the last frame.
pub open spec fn render_due(e: Engine, now: u64, windows: bool) -> bool {
    &&& e.dirty
    &&& (!windows || e.size.0 >= 2)
    &&& (e.exit is Some || (sync_ready(e, now) && match e.last_render {
        None => true,
        Some(t) => elapsed(now, t) >= 16,
    }))
}

/// The host reports the mouse unless the session is inline, where it does so
/// only for a live child that asked for mouse reports.
pub open spec fn wants_mouse(inline: bool, scrollback: usize, mode: MouseProtocolMode) -> bool {
    !inline || (scrollback == 0 && mode != MouseProtocolMode::Disabled)
}

/// The routed input's effect on the state and the loop.
pub open spec fn action_step(e: Engine, a: ActionView) -> (Engine, StepView) {
    match a {
        ActionView::Ignore => (e, StepView::Continue),
        ActionView::Redraw => (Engine { dirty: true, ..e }, StepView::Continue),
        ActionView::Resize(c, r) => (Engine { dirty: true, size: (c, r), ..e }, StepView::Resize(c, r)),
        ActionView::Quit => (e, StepView::Quit(130)),
        ActionView::Send(bytes, redraw) => (
            Engine { dirty: e.dirty || redraw, ..e },
            if bytes.len() > 0 && e.exit is None && e.shutdown is None {
                StepView::Send(bytes)
            } else {
                StepView::Continue
            },
        ),
    }
}

impl Engine {
    /// A fresh session in a host of `size`, at time `now`.
    pub fn new(size: (u16, u16), inline: bool, now: u64) -> (e: Engine)
        ensures
            e.dirty,
            !e.eof,
            e.exit is None,
            e.shutdown is None,
            e.pipe_error is None,
            e.last_render is None,
            e.sync_started is None,
            e.mouse_capture == !inline,
            e.last_size_check == now,
            e.size == size,
    {
        Engine {
            dirty: true,
            eof: false,
            exit: None,
            shutdown: None,
            pipe_error: None,
            last_render: None,
            sync_started: None,
            mouse_capture: !inline,
            last_size_check: now,
            size,
        }
    }

    /// A termination request (its exit status) is taken once; the child is
    /// then killed.
    pub fn on_shutdown_request(&mut self, code: Option<u32>, now: u64) -> (kill: bool)
        ensures
            kill == (code is Some && old(self).shutdown is None),
            *final(self) == (if kill {
                Engine { shutdown: Some((now, code->0)), ..*old(self) }
            } else {
                *old(self)
            }),
    {
        match code {
            Some(c) => if self.shutdown.is_none() {
                self.shutdown = Some((now, c));
                true
            } else {
                false
            },
            None => false,
        }
    }

    /// After a termination request the session ends when output ends or
    /// 500 ms passed.
    pub fn shutdown_done(&self, now: u64) -> (code: Option<u32>)
        ensures
            code == match self.shutdown {
                Some((t, c)) => if self.eof || elapsed(now, t) >= 500 {
                    Some(c)
                } else {
                    None
                },
                None => None,
            },
    {
        match self.shutdown {
            Some((t, c)) => if self.eof || since(now, t) >= 500 {
                Some(c)
            } else {
                None
            },
            None => None,
        }
    }

    /// The host's size is polled every 200 ms, and on every turn on Windows.
    pub fn size_check_due(&mut self, now: u64, windows: bool) -> (due: bool)
        ensures
            due == (windows || elapsed(now, old(self).last_size_check) >= 200),
            *final(self) == (if due {
                Engine { last_size_check: now, ..*old(self) }
            } else {
                *old(self)
            }),
    {
        if windows || since(now, self.last_size_check) >= 200 {
            self.last_size_check = now;
            true
        } else {
            false
        }
    }

    /// A polled host size: a change is recorded and redrawn.
    pub fn host_size(&mut self, size: (u16, u16)) -> (changed: bool)
        ensures
            changed == (size != old(self).size),
            *final(self) == (if changed {
                Engine { size, dirty: true, ..*old(self) }
            } else {
                *old(self)
            }),
    {
        if size.0 != self.size.0 || size.1 != self.size.1 {
            self.size = size;
            self.dirty = true;
            true
        } else {
            false
        }
    }

    /// Child output arrived.
    pub fn on_output(&mut self)
        ensures
            *final(self) == (Engine { dirty: true, ..*old(self) }),
    {
        self.dirty = true;
    }

    /// Child output ended.
    pub fn on_eof(&mut self)
        ensures
            *final(self) == (Engine { eof: true, ..*old(self) }),
    {
        self.eof = true;
    }

    /// The output pipe broke while closing; the child may still report its
    /// exit.
    pub fn on_pipe_error(&mut self, now: u64)
        ensures
            *final(self) == (Engine { eof: true, pipe_error: Some(now), ..*old(self) }),
    {
        self.eof = true;
        self.pipe_error = Some(now);
    }

    /// Tracks since when synchronized output is held.
    pub fn synchronized(&mut self, held: bool, now: u64)
        ensures
            *final(self) == (Engine {
                sync_started: if held {
                    if old(self).sync_started is None {
                        Some(now)
                    } else {
                        old(self).sync_started
                    }
                } else {
                    None
                },
                ..*old(self)
            }),
    {
        if held {
            if self.sync_started.is_none() {
                self.sync_started = Some(now);
            }
        } else {
            self.sync_started = None;
        }
    }

    pub fn render_due(&self, now: u64, windows: bool) -> (due: bool)
        ensures
            due == render_due(*self, now, windows),
    {
        let ready = match self.sync_started {
            None => true,
            Some(t) => since(now, t) >= 250,
        };
        let paced = match self.last_render {
            None => true,
            Some(t) => since(now, t) >= 16,
        };
        self.dirty && (!windows || self.size.0 >= 2) && (self.exit.is_some() || (ready && paced))
    }

    /// A frame was drawn.
    pub fn rendered(&mut self, now: u64)
        ensures
            *final(self) == (Engine { dirty: false, last_render: Some(now), ..*old(self) }),
    {
        self.dirty = false;
        self.last_render = Some(now);
    }

    /// Mouse capture to switch to, when it changes.
    pub fn mouse_change(&mut self, inline: bool, scrollback: usize, mode: MouseProtocolMode) -> (r:
        Option<bool>)
        ensures
            ({
                let wants = wants_mouse(inline, scrollback, mode);
                &&& r == if wants != old(self).mouse_capture {
                    Some(wants)
                } else {
                    None
                }
                &&& *final(self) == Engine { mouse_capture: wants, ..*old(self) }
            }),
    {
        let wants = !inline || (scrollback == 0 && mode != MouseProtocolMode::Disabled);
        if wants != self.mouse_capture {
            self.mouse_capture = wants;
            Some(wants)
        } else {
            None
        }
    }

    /// The child exited with `code`; the final frame is drawn.
    pub fn child_exited(&mut self, code: u32, now: u64)
        requires
            old(self).exit is None,
        ensures
            *final(self) == (Engine { exit: Some((code, now)), dirty: true, ..*old(self) }),
    {
        self.exit = Some((code, now));
        self.dirty = true;
    }

    /// A broken pipe without an exit status after 500 ms is an error.
    pub fn pipe_error_expired(&self, now: u64) -> (r: bool)
        ensures
            r == (self.exit is None && match self.pipe_error {
                Some(t) => elapsed(now, t) >= 500,
                None => false,
            }),
    {
        self.exit.is_none() && match self.pipe_error {
            Some(t) => since(now, t) >= 500,
            None => false,
        }
    }

    /// After the child exited, the session ends once output is drained or
    /// 500 ms passed, with the child's status, or the requested one after a
    /// termination request.
    pub fn finished(&self, now: u64) -> (code: Option<u32>)
        ensures
            code == match self.exit {
                Some((c, t)) => if self.eof || elapsed(now, t) >= 500 {
                    Some(
                        match self.shutdown {
                            Some((_, s)) => s,
                            None => c,
                        },
                    )
                } else {
                    None
                },
                None => None,
            },
    {
        match self.exit {
            Some((c, t)) => if self.eof || since(now, t) >= 500 {
                Some(
                    match self.shutdown {
                        Some((_, s)) => s,
                        None => c,
                    },
                )
            } else {
                None
            },
            None => None,
        }
    }

    /// What the loop does with a routed input; input for the child is
    /// dropped once it exited or a termination was requested.
    pub fn on_action(&mut self, action: InputAction) -> (step: Step)
        ensures
            (*final(self), step@) == action_step(*old(self), action@),
    {
        match action {
            InputAction::Ignore => Step::Continue,
            InputAction::Redraw => {
                self.dirty = true;
                Step::Continue
            },
            InputAction::Resize(cols, rows) => {
                self.dirty = true;
                self.size = (cols, rows);
                Step::Resize(cols, rows)
            },
            InputAction::Quit => Step::Quit(130),
            InputAction::Send { bytes, redraw } => {
                self.dirty = self.dirty || redraw;
                if bytes.len() > 0 && self.exit.is_none() && self.shutdown.is_none() {
                    Step::Send(bytes)
                } else {
                    Step::Continue
                }
            },
        }
    }
}

/// The offset a frame is drawn at: scrollback is shown only outside the
/// alternate screen, limited to the history kept; otherwise the live screen.
pub open spec fn spec_frame_offset(scrollback: usize, alternate: bool, retained: usize) -> usize {
    if scrollback > 0 && !alternate {
        if scrollback < retained {
            scrollback
        } else {
            retained
        }
    } else {
        0
    }
}

pub fn frame_offset(scrollback: usize, alternate: bool, retained: usize) -> (r: usize)
    ensures
        r == spec_frame_offset(scrollback, alternate, retained),
{
    if scrollback > 0 && !alternate {
        if scrollback < retained {
            scrollback
        } else {
            retained
        }
    } else {
        0
    }
}

/// Whether the transcript is replayed after exit: not when disabled, inline,
/// or in a Windows host narrower than two columns.
pub open spec fn spec_replay_wanted(no_replay: bool, inline: bool, windows: bool, host_cols: Option<u16>) -> bool {
    !(no_replay || inline || (windows && match host_cols {
        Some(c) => c < 2,
        None => false,
    }))
}

pub fn replay_wanted(no_replay: bool, inline: bool, windows: bool, host_cols: Option<u16>) -> (r: bool)
    ensures
        r == spec_replay_wanted(no_replay, inline, windows, host_cols),
{
    !(no_replay || inline || (windows && match host_cols {
        Some(c) => c < 2,
        None => false,
    }))
}

/// Frames are paced: while the child runs, a frame is drawn only for a
/// change, at least 16 ms after the previous frame, and not while
/// synchronized output has been held for less than 250 ms; once the child
/// exits, a change is drawn at once. Quitting ends with status 130, and
/// nothing is sent to a child that exited or is being shut down.
pub proof fn lemma_pacing(e: Engine, now: u64, windows: bool, bytes: Seq<u8>, redraw: bool)
    ensures
        render_due(e, now, windows) ==> e.dirty,
        render_due(e, now, windows) && e.exit is None ==> (e.last_render matches Some(t) ==> now >= t + 16),
        render_due(e, now, windows) && e.exit is None ==> (e.sync_started matches Some(t) ==> now >= t + 250),
        e.dirty && e.exit is Some && !windows ==> render_due(e, now, windows),
        e.dirty && e.exit is None && e.sync_started is None && e.last_render is None && !windows ==> render_due(
            e,
            now,
            windows,
        ),
        !e.dirty ==> !render_due(e, now, windows),
        action_step(e, ActionView::Quit).1 == StepView::Quit(130),
        (e.exit is Some || e.shutdown is Some) ==> action_step(e, ActionView::Send(bytes, redraw)).1
            == StepView::Continue,
        e.exit is None && e.shutdown is None && bytes.len() > 0 ==> action_step(
            e,
            ActionView::Send(bytes, redraw),
        ).1 == StepView::Send(bytes),
{
}

/// The frame shows the live screen unless the view is scrolled back outside
/// the alternate screen; then it is scrolled back as far as asked, but never
/// past the rows the parser retains. The transcript is replayed after exit
/// unless replay is off, the session is inline, or a Windows host is
/// narrower than two columns.
pub proof fn lemma_frame_offset_and_replay(
    scrollback: usize,
    alternate: bool,
    retained: usize,
    no_replay: bool,
    inline: bool,
    windows: bool,
    host_cols: Option<u16>,
)
    ensures
        spec_frame_offset(scrollback, alternate, retained) <= retained,
        alternate || scrollback == 0 ==> spec_frame_offset(scrollback, alternate, retained) == 0,
        !alternate && scrollback <= retained ==> spec_frame_offset(scrollback, alternate, retained) == scrollback,
        !alternate && scrollback > retained ==> spec_frame_offset(scrollback, alternate, retained) == retained,
        spec_replay_wanted(no_replay, inline, windows, host_cols) <==> (!no_replay && !inline && !(windows
            && host_cols is Some && (host_cols->0 as int) < 2)),
{
}

} // verus!
