//! Native Windows console input: ConPTY's win32-input-mode key envelope,
//! VT sequences the host sends for keys and the mouse, and key records sent
//! on to the child unchanged.
use vstd::prelude::*;
use crate::bytes::{push_bytes, push_chars, push_decimal, decimal, utf8};
use crate::input::{KeyCode, KeyEvent, KeyEventKind, KeyModifiers, MouseButton, MouseEvent, MouseEventKind};
use crate::pretty::rows::starts_with;
use crate::session::interaction::{EventView, HostEvent, HostInput, InputView};
use crate::session::params::{params, spec_params};
use crate::text::{chars_of, spec_utf16_lossy, string_from_utf16_lossy};

verus! {

/// A console key record: virtual key, scan code, UTF-16 unit, key-down flag,
/// control-key state and repeat count.
#[derive(Clone, Copy, Debug, PartialEq, Eq, Structural)]
pub struct KeyRecord {
    pub virtual_key_code: u16,
    pub virtual_scan_code: u16,
    pub unicode_char: u16,
    pub key_down: i32,
    pub control_key_state: u32,
    pub repeat_count: u16,
}

/// A decoded console input sequence.
pub enum ConsoleSequence {
    /// A native key record in the win32-input-mode envelope.
    Key(KeyRecord),
    /// Input for the session.
    Input(HostInput),
    /// The start of a bracketed paste.
    Paste,
}

pub enum SequenceView {
    Key(KeyRecord),
    Input(InputView),
    Paste,
}

impl View for ConsoleSequence {
    type V = SequenceView;

    open spec fn view(&self) -> SequenceView {
        match self {
            ConsoleSequence::Key(k) => SequenceView::Key(*k),
            ConsoleSequence::Input(i) => SequenceView::Input(i@),
            ConsoleSequence::Paste => SequenceView::Paste,
        }
    }
}

/// Control-key state bits of a console record.
pub open spec fn shift_pressed() -> u32 {
    0x10
}

/// Either Alt key (right 0x1, left 0x2).
pub open spec fn alt_pressed() -> u32 {
    0x3
}

/// Either Ctrl key (right 0x4, left 0x8).
pub open spec fn ctrl_pressed() -> u32 {
    0xc
}

/// The modifiers held in a console control-key state.
pub open spec fn spec_console_modifiers(state: u32) -> KeyModifiers {
    KeyModifiers {
        shift: state & shift_pressed() != 0,
        alt: state & alt_pressed() != 0,
        control: state & ctrl_pressed() != 0,
    }
}

pub fn console_modifiers(state: u32) -> (m: KeyModifiers)
    ensures
        m == spec_console_modifiers(state),
{
    KeyModifiers {
        shift: state & 0x10u32 != 0,
        alt: state & 0x3u32 != 0,
        control: state & 0xcu32 != 0,
    }
}

/// An unrecognised sequence goes to the child as it came, as a key without
/// meaning for the session.
pub open spec fn fallback(text: Seq<char>) -> SequenceView {
    SequenceView::Input(
        InputView {
            event: EventView::Key(
                KeyEvent {
                    code: KeyCode::Null,
                    modifiers: KeyModifiers { shift: false, alt: false, control: false },
                    kind: KeyEventKind::Press,
                },
            ),
            native_key: Some(utf8(text)),
        },
    )
}

pub open spec fn param(ps: Seq<u16>, i: int) -> u16 {
    if 0 <= i < ps.len() {
        ps[i]
    } else {
        0
    }
}

/// The modifiers of an xterm modifier parameter (1 plus shift 1, alt 2,
/// control 4).
pub open spec fn param_modifiers(m: u16) -> KeyModifiers {
    KeyModifiers { shift: m & 1 != 0, alt: m & 2 != 0, control: m & 4 != 0 }
}

pub open spec fn minus_one(p: u16) -> u16 {
    if p >= 1 {
        (p - 1) as u16
    } else {
        0
    }
}

/// A CSI sequence with numeric parameters: a native key record, the start of
/// a paste, a modified Enter as a native record, or Page Up/Down.
pub open spec fn decode_params(text: Seq<char>, fin: char, ps: Seq<u16>) -> SequenceView {
    let m = minus_one(param(ps, 1));
    if fin == '_' && ps.len() <= 6 {
        SequenceView::Key(
            KeyRecord {
                virtual_key_code: param(ps, 0),
                virtual_scan_code: param(ps, 1),
                unicode_char: param(ps, 2),
                key_down: if param(ps, 3) != 0 {
                    1
                } else {
                    0
                },
                control_key_state: param(ps, 4) as u32,
                repeat_count: if param(ps, 5) >= 1 {
                    param(ps, 5)
                } else {
                    1
                },
            },
        )
    } else if fin == '~' && param(ps, 0) == 200 {
        SequenceView::Paste
    } else if fin == 'u' && param(ps, 0) == 13 {
        SequenceView::Key(
            KeyRecord {
                virtual_key_code: 13,
                virtual_scan_code: 28,
                unicode_char: 13,
                key_down: 1,
                control_key_state: (((m & 1) as u32) * 16 + ((m & 2) as u32) + ((m & 4) as u32) * 2) as u32,
                repeat_count: 1,
            },
        )
    } else if fin == '~' && (param(ps, 0) == 5 || param(ps, 0) == 6) {
        SequenceView::Input(
            InputView {
                event: EventView::Key(
                    KeyEvent {
                        code: if param(ps, 0) == 5 {
                            KeyCode::PageUp
                        } else {
                            KeyCode::PageDown
                        },
                        modifiers: param_modifiers(m),
                        kind: KeyEventKind::Press,
                    },
                ),
                native_key: Some(utf8(text)),
            },
        )
    } else {
        fallback(text)
    }
}

pub open spec fn sgr_button(code: u16) -> MouseButton {
    if code & 3 == 0 {
        MouseButton::Left
    } else if code & 3 == 1 {
        MouseButton::Middle
    } else {
        MouseButton::Right
    }
}

/// The kind of an SGR mouse report: wheel, release, motion or press.
pub open spec fn sgr_kind(code: u16, release: bool) -> MouseEventKind {
    if code & 64 != 0 {
        if code & 3 == 0 {
            MouseEventKind::ScrollUp
        } else if code & 3 == 1 {
            MouseEventKind::ScrollDown
        } else if code & 3 == 2 {
            MouseEventKind::ScrollLeft
        } else {
            MouseEventKind::ScrollRight
        }
    } else if release {
        MouseEventKind::Up(sgr_button(code))
    } else if code & 32 != 0 {
        if code & 3 == 3 {
            MouseEventKind::Moved
        } else {
            MouseEventKind::Drag(sgr_button(code))
        }
    } else {
        MouseEventKind::Down(sgr_button(code))
    }
}

/// `code;x;y` of an SGR mouse report, with one-based coordinates.
pub open spec fn spec_sgr_mouse(p: Seq<char>, release: bool) -> Option<MouseEvent> {
    match spec_params(p, false) {
        Some(vs) => if vs.len() == 3 && vs[1] >= 1 && vs[2] >= 1 {
            Some(
                MouseEvent {
                    kind: sgr_kind(vs[0], release),
                    column: (vs[1] - 1) as u16,
                    row: (vs[2] - 1) as u16,
                    modifiers: KeyModifiers {
                        shift: vs[0] & 4 != 0,
                        alt: vs[0] & 8 != 0,
                        control: vs[0] & 16 != 0,
                    },
                },
            )
        } else {
            None
        },
        None => None,
    }
}

/// What a console input sequence means.
pub open spec fn spec_decode_text(text: Seq<char>) -> SequenceView {
    if !starts_with(text, seq!['\u{1b}', '[']) {
        fallback(text)
    } else {
        let body = text.skip(2);
        if body.len() == 0 || body.last() as u32 >= 128 {
            fallback(text)
        } else {
            let fin = body.last();
            let p = body.drop_last();
            if (fin == 'M' || fin == 'm') && p.len() > 0 && p[0] == '<' {
                match spec_sgr_mouse(p.skip(1), fin == 'm') {
                    Some(e) => SequenceView::Input(
                        InputView { event: EventView::Mouse(e), native_key: None },
                    ),
                    None => fallback(text),
                }
            } else {
                match spec_params(p, true) {
                    Some(ps) => decode_params(text, fin, ps),
                    None => fallback(text),
                }
            }
        }
    }
}

fn sgr_button_exec(code: u16) -> (b: MouseButton)
    ensures
        b == sgr_button(code),
{
    if code & 3 == 0 {
        MouseButton::Left
    } else if code & 3 == 1 {
        MouseButton::Middle
    } else {
        MouseButton::Right
    }
}

fn sgr_kind_exec(code: u16, release: bool) -> (k: MouseEventKind)
    ensures
        k == sgr_kind(code, release),
{
    if code & 64 != 0 {
        if code & 3 == 0 {
            MouseEventKind::ScrollUp
        } else if code & 3 == 1 {
            MouseEventKind::ScrollDown
        } else if code & 3 == 2 {
            MouseEventKind::ScrollLeft
        } else {
            MouseEventKind::ScrollRight
        }
    } else if release {
        MouseEventKind::Up(sgr_button_exec(code))
    } else if code & 32 != 0 {
        if code & 3 == 3 {
            MouseEventKind::Moved
        } else {
            MouseEventKind::Drag(sgr_button_exec(code))
        }
    } else {
        MouseEventKind::Down(sgr_button_exec(code))
    }
}

/// Decodes the parameters of an SGR mouse report (`code;x;y`).
pub fn sgr_mouse_event(parameters: &[char], release: bool) -> (e: Option<MouseEvent>)
    ensures
        e == spec_sgr_mouse(parameters@, release),
{
    let values = match params(parameters, false) {
        Some(v) => v,
        None => {
            return None;
        },
    };
    if values.len() != 3 || values[1] < 1 || values[2] < 1 {
        return None;
    }
    let code = values[0];
    Some(
        MouseEvent {
            kind: sgr_kind_exec(code, release),
            column: values[1] - 1,
            row: values[2] - 1,
            modifiers: KeyModifiers {
                shift: code & 4 != 0,
                alt: code & 8 != 0,
                control: code & 16 != 0,
            },
        },
    )
}

fn fallback_exec(raw: Vec<u8>) -> (s: ConsoleSequence)
    ensures
        s@ == (SequenceView::Input(
            InputView {
                event: EventView::Key(
                    KeyEvent {
                        code: KeyCode::Null,
                        modifiers: KeyModifiers { shift: false, alt: false, control: false },
                        kind: KeyEventKind::Press,
                    },
                ),
                native_key: Some(raw@),
            },
        )),
{
    ConsoleSequence::Input(
        HostInput {
            event: HostEvent::Key(KeyEvent::new(KeyCode::Null, KeyModifiers::none())),
            native_key: Some(raw),
        },
    )
}

fn param_exec(ps: &Vec<u16>, i: usize) -> (v: u16)
    ensures
        v == param(ps@, i as int),
{
    if i < ps.len() {
        ps[i]
    } else {
        0
    }
}

fn decode_params_exec(raw: Vec<u8>, fin: char, ps: &Vec<u16>) -> (s: ConsoleSequence)
    ensures
        forall|text: Seq<char>| utf8(text) == raw@ ==> s@ == decode_params(text, fin, ps@),
{
    let p0 = param_exec(ps, 0);
    let p1 = param_exec(ps, 1);
    let m: u16 = if p1 >= 1 {
        p1 - 1
    } else {
        0
    };
    if fin == '_' && ps.len() <= 6 {
        let p5 = param_exec(ps, 5);
        return ConsoleSequence::Key(
            KeyRecord {
                virtual_key_code: p0,
                virtual_scan_code: p1,
                unicode_char: param_exec(ps, 2),
                key_down: if param_exec(ps, 3) != 0 {
                    1
                } else {
                    0
                },
                control_key_state: param_exec(ps, 4) as u32,
                repeat_count: if p5 >= 1 {
                    p5
                } else {
                    1
                },
            },
        );
    }
    if fin == '~' && p0 == 200 {
        return ConsoleSequence::Paste;
    }
    if fin == 'u' && p0 == 13 {
        return ConsoleSequence::Key(
            KeyRecord {
                virtual_key_code: 13,
                virtual_scan_code: 28,
                unicode_char: 13,
                key_down: 1,
                control_key_state: ((m & 1) as u32) * 16 + ((m & 2) as u32) + ((m & 4) as u32) * 2,
                repeat_count: 1,
            },
        );
    }
    if fin == '~' && (p0 == 5 || p0 == 6) {
        let code = if p0 == 5 {
            KeyCode::PageUp
        } else {
            KeyCode::PageDown
        };
        let modifiers = KeyModifiers { shift: m & 1 != 0, alt: m & 2 != 0, control: m & 4 != 0 };
        return ConsoleSequence::Input(
            HostInput {
                event: HostEvent::Key(KeyEvent::new(code, modifiers)),
                native_key: Some(raw),
            },
        );
    }
    fallback_exec(raw)
}

/// Decodes a console input sequence given as text.
pub fn decode_console_text(text: &str) -> (s: ConsoleSequence)
    ensures
        s@ == spec_decode_text(text@),
{
    let t = chars_of(text);
    let mut raw: Vec<u8> = Vec::new();
    push_chars(&mut raw, t.as_slice());
    assert(raw@ == utf8(text@));
    let len = t.len();
    let opened = crate::pretty::rows::chars_start_with(t.as_slice(), 0, &['\u{1b}', '[']);
    assert(t@.skip(0) =~= t@);
    if !opened {
        return fallback_exec(raw);
    }
    let ghost body = t@.skip(2);
    if len == 2 {
        return fallback_exec(raw);
    }
    let fin = t[len - 1];
    assert(body.last() == fin);
    if fin as u32 >= 128 {
        return fallback_exec(raw);
    }
    let p = crate::pretty::rows::part(t.as_slice(), 2, len - 1);
    assert(p@ =~= body.drop_last());
    if (fin == 'M' || fin == 'm') && p.len() > 0 && p[0] == '<' {
        let q = crate::pretty::rows::part(p.as_slice(), 1, p.len());
        assert(q@ =~= p@.skip(1));
        return match sgr_mouse_event(q.as_slice(), fin == 'm') {
            Some(e) => ConsoleSequence::Input(
                HostInput { event: HostEvent::Mouse(e), native_key: None },
            ),
            None => fallback_exec(raw),
        };
    }
    match params(p.as_slice(), true) {
        Some(ps) => decode_params_exec(raw, fin, &ps),
        None => fallback_exec(raw),
    }
}

/// Decodes a console input sequence given as UTF-16 units, as the console
/// delivers them.
pub fn decode_console_sequence(units: &[u16]) -> (s: ConsoleSequence)
    ensures
        s@ == spec_decode_text(spec_utf16_lossy(units@)),
{
    let text = string_from_utf16_lossy(units);
    decode_console_text(text.as_str())
}

/// A signed decimal number.
pub open spec fn signed_decimal(i: int) -> Seq<u8> {
    if i < 0 {
        seq![45u8] + decimal((-i) as nat)
    } else {
        decimal(i as nat)
    }
}

/// The win32-input-mode envelope of a key record:
/// `CSI Vk ; Sc ; Uc ; Kd ; Cs ; Rc _`.
pub open spec fn native_bytes(k: KeyRecord) -> Seq<u8> {
    seq![27u8, 91u8] + decimal(k.virtual_key_code as nat) + seq![59u8] + decimal(
        k.virtual_scan_code as nat,
    ) + seq![59u8] + decimal(k.unicode_char as nat) + seq![59u8] + signed_decimal(
        k.key_down as int,
    ) + seq![59u8] + decimal(k.control_key_state as nat) + seq![59u8] + decimal(
        k.repeat_count as nat,
    ) + seq![95u8]
}

/// The key the session sees in a native record: Ctrl+] and Page Up/Down
/// are recognised, any other key is its character.
pub open spec fn native_code(k: KeyRecord) -> KeyCode {
    if k.unicode_char == 29 {
        KeyCode::Char(']')
    } else if k.virtual_key_code == 33 {
        KeyCode::PageUp
    } else if k.virtual_key_code == 34 {
        KeyCode::PageDown
    } else if vstd::utf8::is_scalar(k.unicode_char as u32) {
        KeyCode::Char((k.unicode_char as u32) as char)
    } else {
        KeyCode::Null
    }
}

pub open spec fn native_input(k: KeyRecord) -> InputView {
    let m = spec_console_modifiers(k.control_key_state);
    InputView {
        event: EventView::Key(
            KeyEvent {
                code: native_code(k),
                modifiers: KeyModifiers { control: m.control || k.unicode_char == 29, ..m },
                kind: KeyEventKind::Press,
            },
        ),
        native_key: Some(native_bytes(k)),
    }
}

fn push_signed(out: &mut Vec<u8>, i: i32)
    ensures
        final(out)@ == old(out)@ + signed_decimal(i as int),
{
    if i < 0 {
        out.push(45u8);
        let magnitude: i64 = -(i as i64);
        push_decimal(out, magnitude as u64);
    } else {
        push_decimal(out, i as u64);
    }
    assert(out@ =~= old(out)@ + signed_decimal(i as int));
}

/// A key record as the session sees it, with its envelope for the child.
pub fn native_key_input(key: KeyRecord) -> (input: HostInput)
    ensures
        input@ == native_input(key),
{
    let unit = key.unicode_char;
    let code = if unit == 29 {
        KeyCode::Char(']')
    } else if key.virtual_key_code == 33 {
        KeyCode::PageUp
    } else if key.virtual_key_code == 34 {
        KeyCode::PageDown
    } else {
        match crate::text::char_from_u32(unit as u32) {
            Some(c) => {
                proof {
                    vstd::utf8::char_u32_cast(c, unit as u32);
                }
                KeyCode::Char(c)
            },
            None => KeyCode::Null,
        }
    };
    let mut modifiers = console_modifiers(key.control_key_state);
    if unit == 29 {
        modifiers.control = true;
    }
    let mut native: Vec<u8> = Vec::new();
    native.push(27u8);
    native.push(91u8);
    push_decimal(&mut native, key.virtual_key_code as u64);
    native.push(59u8);
    push_decimal(&mut native, key.virtual_scan_code as u64);
    native.push(59u8);
    push_decimal(&mut native, unit as u64);
    native.push(59u8);
    push_signed(&mut native, key.key_down);
    native.push(59u8);
    push_decimal(&mut native, key.control_key_state as u64);
    native.push(59u8);
    push_decimal(&mut native, key.repeat_count as u64);
    native.push(95u8);
    assert(native@ =~= native_bytes(key));
    HostInput {
        event: HostEvent::Key(KeyEvent::new_with_kind(code, modifiers, KeyEventKind::Press)),
        native_key: Some(native),
    }
}

proof fn lemma_ascii_join(a: Seq<u8>, b: Seq<u8>)
    ensures
        crate::session::params::ascii(a + b) == crate::session::params::ascii(a)
            + crate::session::params::ascii(b),
{
    assert(crate::session::params::ascii(a + b) =~= crate::session::params::ascii(a)
        + crate::session::params::ascii(b));
}

/// One more field `n` after the fields `x`: parsed, it adds `n`.
proof fn lemma_one_more_field(x: Seq<char>, vs: Seq<u16>, n: nat)
    requires
        n <= 65535,
        crate::session::params::spec_params(x, true) == Some(vs),
    ensures
        crate::session::params::spec_params(
            x + seq![';'] + crate::session::params::ascii(decimal(n)),
            true,
        ) == Some(vs.push(n as u16)),
{
    let d = crate::session::params::ascii(decimal(n));
    crate::session::params::lemma_decimal_digits(n);
    crate::session::params::lemma_fields_join(x, d);
    crate::session::params::lemma_fields_single(d);
    crate::session::params::lemma_parse_decimal(n, true);
    crate::session::params::lemma_parse_all_join(
        crate::session::params::fields(x),
        seq![d],
        true,
    );
    assert(vs + seq![n as u16] =~= vs.push(n as u16));
}

/// The envelope's parameters, as text.
pub open spec fn envelope_params(k: KeyRecord) -> Seq<char> {
    let a = |n: nat| crate::session::params::ascii(decimal(n));
    a(k.virtual_key_code as nat) + seq![';'] + a(k.virtual_scan_code as nat) + seq![';'] + a(
        k.unicode_char as nat,
    ) + seq![';'] + a(k.key_down as nat) + seq![';'] + a(k.control_key_state as nat) + seq![';']
        + a(k.repeat_count as nat)
}

proof fn lemma_ascii_field(prefix: Seq<u8>, n: nat)
    ensures
        crate::session::params::ascii(prefix + seq![59u8] + decimal(n)) == crate::session::params::ascii(
            prefix,
        ) + seq![';'] + crate::session::params::ascii(decimal(n)),
{
    assert(crate::session::params::ascii(seq![59u8]) =~= seq![';']);
    lemma_ascii_join(prefix, seq![59u8]);
    lemma_ascii_join(prefix + seq![59u8], decimal(n));
}

#[verifier::rlimit(30)]
proof fn lemma_envelope_text(k: KeyRecord)
    requires
        k.key_down == 0 || k.key_down == 1,
    ensures
        crate::session::params::ascii(native_bytes(k)) == seq!['\u{1b}', '['] + envelope_params(k)
            + seq!['_'],
{
    let kd = k.key_down as nat;
    assert(signed_decimal(k.key_down as int) == decimal(kd));
    let a = |n: nat| crate::session::params::ascii(decimal(n));
    let b0 = seq![27u8, 91u8];
    let b1 = b0 + decimal(k.virtual_key_code as nat);
    let b2 = b1 + seq![59u8] + decimal(k.virtual_scan_code as nat);
    let b3 = b2 + seq![59u8] + decimal(k.unicode_char as nat);
    let b4 = b3 + seq![59u8] + decimal(kd);
    let b5 = b4 + seq![59u8] + decimal(k.control_key_state as nat);
    let b6 = b5 + seq![59u8] + decimal(k.repeat_count as nat);
    assert(native_bytes(k) =~= b6 + seq![95u8]);
    assert(crate::session::params::ascii(b0) =~= seq!['\u{1b}', '[']);
    lemma_ascii_join(b0, decimal(k.virtual_key_code as nat));
    lemma_ascii_field(b1, k.virtual_scan_code as nat);
    lemma_ascii_field(b2, k.unicode_char as nat);
    lemma_ascii_field(b3, kd);
    lemma_ascii_field(b4, k.control_key_state as nat);
    lemma_ascii_field(b5, k.repeat_count as nat);
    assert(crate::session::params::ascii(seq![95u8]) =~= seq!['_']);
    lemma_ascii_join(b6, seq![95u8]);
    let t1 = a(k.virtual_key_code as nat);
    let t2 = t1 + seq![';'] + a(k.virtual_scan_code as nat);
    let t3 = t2 + seq![';'] + a(k.unicode_char as nat);
    let t4 = t3 + seq![';'] + a(kd);
    let t5 = t4 + seq![';'] + a(k.control_key_state as nat);
    let t6 = t5 + seq![';'] + a(k.repeat_count as nat);
    assert(crate::session::params::ascii(b1) =~= seq!['\u{1b}', '['] + t1);
    assert(crate::session::params::ascii(b2) =~= seq!['\u{1b}', '['] + t2);
    assert(crate::session::params::ascii(b3) =~= seq!['\u{1b}', '['] + t3);
    assert(crate::session::params::ascii(b4) =~= seq!['\u{1b}', '['] + t4);
    assert(crate::session::params::ascii(b5) =~= seq!['\u{1b}', '['] + t5);
    assert(crate::session::params::ascii(b6) =~= seq!['\u{1b}', '['] + t6);
    assert(t6 =~= envelope_params(k));
    assert(crate::session::params::ascii(native_bytes(k)) =~= seq!['\u{1b}', '['] + envelope_params(k)
        + seq!['_']);
}

proof fn lemma_envelope_values(k: KeyRecord)
    requires
        k.key_down == 0 || k.key_down == 1,
        k.control_key_state <= 65535,
    ensures
        crate::session::params::spec_params(envelope_params(k), true) == Some(
            seq![
                k.virtual_key_code,
                k.virtual_scan_code,
                k.unicode_char,
                k.key_down as u16,
                k.control_key_state as u16,
                k.repeat_count,
            ],
        ),
{
    let a = |n: nat| crate::session::params::ascii(decimal(n));
    let vk = k.virtual_key_code as nat;
    let sc = k.virtual_scan_code as nat;
    let uc = k.unicode_char as nat;
    let kd = k.key_down as nat;
    let cs = k.control_key_state as nat;
    let rc = k.repeat_count as nat;
    let p1 = a(vk);
    let p2 = p1 + seq![';'] + a(sc);
    let p3 = p2 + seq![';'] + a(uc);
    let p4 = p3 + seq![';'] + a(kd);
    let p5 = p4 + seq![';'] + a(cs);
    let p6 = p5 + seq![';'] + a(rc);
    assert(p6 =~= envelope_params(k));
    crate::session::params::lemma_decimal_digits(vk);
    crate::session::params::lemma_fields_single(p1);
    crate::session::params::lemma_parse_decimal(vk, true);
    let s1 = seq![vk as u16];
    lemma_one_more_field(p1, s1, sc);
    let s2 = s1.push(sc as u16);
    lemma_one_more_field(p2, s2, uc);
    let s3 = s2.push(uc as u16);
    lemma_one_more_field(p3, s3, kd);
    let s4 = s3.push(kd as u16);
    lemma_one_more_field(p4, s4, cs);
    let s5 = s4.push(cs as u16);
    lemma_one_more_field(p5, s5, rc);
    assert(s5.push(rc as u16) =~= seq![
        k.virtual_key_code,
        k.virtual_scan_code,
        k.unicode_char,
        k.key_down as u16,
        k.control_key_state as u16,
        k.repeat_count,
    ]);
}

/// A key record sent on in its win32-input-mode envelope decodes back to the
/// same record, whenever the envelope can carry it: a press or release, a
/// control-key state that fits a 16-bit parameter, and a repeat count.
pub proof fn lemma_envelope_round_trip(k: KeyRecord)
    requires
        k.key_down == 0 || k.key_down == 1,
        k.control_key_state <= 65535,
        k.repeat_count >= 1,
    ensures
        spec_decode_text(crate::session::params::ascii(native_bytes(k))) == SequenceView::Key(k),
{
    lemma_envelope_text(k);
    lemma_envelope_values(k);
    let text = crate::session::params::ascii(native_bytes(k));
    let p = envelope_params(k);
    assert(text.take(2) =~= seq!['\u{1b}', '[']);
    let body = text.skip(2);
    assert(body =~= p + seq!['_']);
    assert(body.drop_last() =~= p);
    let ps = seq![
        k.virtual_key_code,
        k.virtual_scan_code,
        k.unicode_char,
        k.key_down as u16,
        k.control_key_state as u16,
        k.repeat_count,
    ];
    assert(decode_params(text, '_', ps) == SequenceView::Key(k));
}

} // verus!
