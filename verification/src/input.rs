//! Encodes host keyboard, paste and mouse events for the child's logical terminal.
use vstd::prelude::*;
use vstd::utf8::*;
use crate::bytes::{decimal, push_bytes, push_char, push_decimal, push_scalar, utf8};

verus! {

/// A key as reported by the host terminal.
#[derive(Clone, Copy, Debug, PartialEq, Eq, Structural)]
pub enum KeyCode {
    Char(char),
    Enter,
    Tab,
    BackTab,
    Backspace,
    Esc,
    Up,
    Down,
    Right,
    Left,
    Home,
    End,
    Insert,
    Delete,
    PageUp,
    PageDown,
    F(u8),
    Null,
    /// Any other key (media, lock and modifier keys); it is never forwarded.
    Other,
}

/// The modifier keys held with a key or mouse event.
#[derive(Clone, Copy, Debug, PartialEq, Eq, Structural)]
pub struct KeyModifiers {
    pub shift: bool,
    pub alt: bool,
    pub control: bool,
}

impl KeyModifiers {
    pub fn none() -> (m: KeyModifiers)
        ensures
            !m.shift && !m.alt && !m.control,
    {
        KeyModifiers { shift: false, alt: false, control: false }
    }

    pub fn shift() -> (m: KeyModifiers)
        ensures
            m.shift && !m.alt && !m.control,
    {
        KeyModifiers { shift: true, alt: false, control: false }
    }

    pub fn alt() -> (m: KeyModifiers)
        ensures
            !m.shift && m.alt && !m.control,
    {
        KeyModifiers { shift: false, alt: true, control: false }
    }

    pub fn control() -> (m: KeyModifiers)
        ensures
            !m.shift && !m.alt && m.control,
    {
        KeyModifiers { shift: false, alt: false, control: true }
    }

    /// Both sets of modifiers together.
    pub fn union(self, other: KeyModifiers) -> (m: KeyModifiers)
        ensures
            m.shift == (self.shift || other.shift),
            m.alt == (self.alt || other.alt),
            m.control == (self.control || other.control),
    {
        KeyModifiers {
            shift: self.shift || other.shift,
            alt: self.alt || other.alt,
            control: self.control || other.control,
        }
    }
}

#[derive(Clone, Copy, Debug, PartialEq, Eq, Structural)]
pub enum KeyEventKind {
    Press,
    Repeat,
    Release,
}

#[derive(Clone, Copy, Debug, PartialEq, Eq, Structural)]
pub struct KeyEvent {
    pub code: KeyCode,
    pub modifiers: KeyModifiers,
    pub kind: KeyEventKind,
}

impl KeyEvent {
    pub fn new(code: KeyCode, modifiers: KeyModifiers) -> (k: KeyEvent)
        ensures
            k.code == code,
            k.modifiers == modifiers,
            k.kind == KeyEventKind::Press,
    {
        KeyEvent { code, modifiers, kind: KeyEventKind::Press }
    }

    pub fn new_with_kind(code: KeyCode, modifiers: KeyModifiers, kind: KeyEventKind) -> (k:
        KeyEvent)
        ensures
            k.code == code,
            k.modifiers == modifiers,
            k.kind == kind,
    {
        KeyEvent { code, modifiers, kind }
    }
}

/// The xterm modifier parameter: 1 plus shift (1), alt (2) and control (4).
pub open spec fn modifier_param(m: KeyModifiers) -> nat {
    1 + (if m.shift { 1nat } else { 0 }) + (if m.alt { 2nat } else { 0 }) + (if m.control {
        4nat
    } else {
        0
    })
}

/// The legacy byte for Ctrl with an ASCII character, when it has one.
pub open spec fn control_byte(c: char) -> Option<u8> {
    let v = c as u32;
    if c == ' ' || c == '@' || c == '2' {
        Some(0u8)
    } else if '4' <= c <= '7' {
        Some((v - 52 + 28) as u8)
    } else if 'a' <= c <= 'z' {
        Some((v - 96) as u8)
    } else if 'A' <= c <= 'Z' || '[' <= c <= '_' {
        Some((v - 64) as u8)
    } else if c == '?' || c == '8' {
        Some(127u8)
    } else {
        None
    }
}

/// Bytes of a character key before the Alt prefix.
pub open spec fn char_key_bytes(c: char, ctrl: bool) -> Seq<u8> {
    if ctrl && (c as u32) < 128 && control_byte(c) is Some {
        seq![control_byte(c)->0]
    } else {
        encode_scalar(c as u32)
    }
}

pub open spec fn esc() -> u8 {
    27u8
}

/// `ESC [`
pub open spec fn csi() -> Seq<u8> {
    seq![27u8, 91u8]
}

/// The final letter of a cursor or Home/End key.
pub open spec fn cursor_letter(code: KeyCode) -> u8 {
    match code {
        KeyCode::Up => 65u8,
        KeyCode::Down => 66u8,
        KeyCode::Right => 67u8,
        KeyCode::Left => 68u8,
        KeyCode::Home => 72u8,
        _ => 70u8,
    }
}

/// The numeric code of an editing or function key in `CSI code ~`, if any.
pub open spec fn tilde_code(code: KeyCode) -> Option<nat> {
    match code {
        KeyCode::Insert => Some(2nat),
        KeyCode::Delete => Some(3nat),
        KeyCode::PageUp => Some(5nat),
        KeyCode::PageDown => Some(6nat),
        KeyCode::F(n) => if n == 5 {
            Some(15nat)
        } else if n == 6 {
            Some(17nat)
        } else if n == 7 {
            Some(18nat)
        } else if n == 8 {
            Some(19nat)
        } else if n == 9 {
            Some(20nat)
        } else if n == 10 {
            Some(21nat)
        } else if n == 11 {
            Some(23nat)
        } else if n == 12 {
            Some(24nat)
        } else {
            None
        },
        _ => None,
    }
}

/// Whether Alt is sent as an ESC prefix for this key (keys encoded with a
/// modifier parameter carry Alt inside it instead).
pub open spec fn alt_prefixed(code: KeyCode, m: KeyModifiers) -> bool {
    m.alt && match code {
        KeyCode::Char(_) | KeyCode::Backspace | KeyCode::Esc => true,
        KeyCode::Tab => !m.shift,
        KeyCode::Enter => !m.shift,
        _ => false,
    }
}

/// The key's bytes after any Alt prefix.
pub open spec fn key_body(code: KeyCode, m: KeyModifiers, application_cursor: bool) -> Seq<u8> {
    let modifier = modifier_param(m);
    match code {
        KeyCode::Char(c) => char_key_bytes(c, m.control),
        KeyCode::Enter => if m.shift {
            csi() + decimal(13) + seq![59u8] + decimal(modifier) + seq![117u8]
        } else {
            seq![13u8]
        },
        KeyCode::Tab => if m.shift {
            csi() + seq![90u8]
        } else {
            seq![9u8]
        },
        KeyCode::BackTab => csi() + seq![90u8],
        KeyCode::Backspace => seq![if m.control { 8u8 } else { 127u8 }],
        KeyCode::Esc => seq![27u8],
        KeyCode::Up | KeyCode::Down | KeyCode::Right | KeyCode::Left | KeyCode::Home
        | KeyCode::End => if modifier > 1 {
            csi() + seq![49u8, 59u8] + decimal(modifier) + seq![cursor_letter(code)]
        } else if application_cursor {
            seq![27u8, 79u8, cursor_letter(code)]
        } else {
            csi() + seq![cursor_letter(code)]
        },
        KeyCode::F(n) if 1 <= n <= 4 => {
            let letter = (79 + n) as u8;
            if modifier == 1 {
                seq![27u8, 79u8, letter]
            } else {
                csi() + seq![49u8, 59u8] + decimal(modifier) + seq![letter]
            }
        },
        _ => match tilde_code(code) {
            Some(n) => if modifier == 1 {
                csi() + decimal(n) + seq![126u8]
            } else {
                csi() + decimal(n) + seq![59u8] + decimal(modifier) + seq![126u8]
            },
            None => Seq::empty(),
        },
    }
}

/// The bytes the child receives for a key, in its current cursor-key mode.
pub open spec fn spec_key_bytes(key: KeyEvent, application_cursor: bool) -> Seq<u8> {
    if key.kind == KeyEventKind::Release {
        Seq::empty()
    } else if alt_prefixed(key.code, key.modifiers) {
        seq![esc()] + key_body(key.code, key.modifiers, application_cursor)
    } else {
        key_body(key.code, key.modifiers, application_cursor)
    }
}

fn modifier_value(m: KeyModifiers) -> (v: u64)
    ensures
        v == modifier_param(m),
        1 <= v <= 8,
{
    let mut v: u64 = 1;
    if m.shift {
        v = v + 1;
    }
    if m.alt {
        v = v + 2;
    }
    if m.control {
        v = v + 4;
    }
    v
}

fn push_csi(out: &mut Vec<u8>)
    ensures
        final(out)@ == old(out)@ + csi(),
{
    out.push(27u8);
    out.push(91u8);
    assert(final(out)@ =~= old(out)@ + csi());
}

fn push_char_key(out: &mut Vec<u8>, c: char, ctrl: bool)
    ensures
        final(out)@ == old(out)@ + char_key_bytes(c, ctrl),
{
    let v: u32 = c as u32;
    if ctrl && v < 128 {
        if c == ' ' || c == '@' || c == '2' {
            out.push(0u8);
        } else if '4' <= c && c <= '7' {
            out.push((v - 52 + 28) as u8);
        } else if 'a' <= c && c <= 'z' {
            out.push((v - 96) as u8);
        } else if ('A' <= c && c <= 'Z') || ('[' <= c && c <= '_') {
            out.push((v - 64) as u8);
        } else if c == '?' || c == '8' {
            out.push(127u8);
        } else {
            push_char(out, c);
        }
    } else {
        push_char(out, c);
    }
    assert(final(out)@ =~= old(out)@ + char_key_bytes(c, ctrl));
}

fn push_cursor_key(out: &mut Vec<u8>, code: KeyCode, m: KeyModifiers, application_cursor: bool)
    requires
        code is Up || code is Down || code is Right || code is Left || code is Home || code is End,
    ensures
        final(out)@ == old(out)@ + key_body(code, m, application_cursor),
{
    let modifier = modifier_value(m);
    let letter: u8 = match code {
        KeyCode::Up => 65u8,
        KeyCode::Down => 66u8,
        KeyCode::Right => 67u8,
        KeyCode::Left => 68u8,
        KeyCode::Home => 72u8,
        _ => 70u8,
    };
    if modifier > 1 {
        push_csi(out);
        out.push(49u8);
        out.push(59u8);
        push_decimal(out, modifier);
        out.push(letter);
    } else if application_cursor {
        out.push(27u8);
        out.push(79u8);
        out.push(letter);
    } else {
        push_csi(out);
        out.push(letter);
    }
    assert(final(out)@ =~= old(out)@ + key_body(code, m, application_cursor));
}

fn tilde_number(code: KeyCode) -> (number: u64)
    ensures
        number == 0 <==> tilde_code(code) is None,
        tilde_code(code) matches Some(n) ==> number == n,
{
    match code {
        KeyCode::Insert => 2,
        KeyCode::Delete => 3,
        KeyCode::PageUp => 5,
        KeyCode::PageDown => 6,
        KeyCode::F(n) => if n == 5 {
            15
        } else if n == 6 {
            17
        } else if n == 7 {
            18
        } else if n == 8 {
            19
        } else if n == 9 {
            20
        } else if n == 10 {
            21
        } else if n == 11 {
            23
        } else if n == 12 {
            24
        } else {
            0
        },
        _ => 0,
    }
}

fn push_function_key(out: &mut Vec<u8>, code: KeyCode, m: KeyModifiers)
    requires
        !(code is Char || code is Enter || code is Tab || code is BackTab || code is Backspace
            || code is Esc || code is Up || code is Down || code is Right || code is Left
            || code is Home || code is End),
    ensures
        final(out)@ == old(out)@ + key_body(code, m, false),
{
    let modifier = modifier_value(m);
    if let KeyCode::F(n) = code {
        if 1 <= n && n <= 4 {
            let letter: u8 = 79 + n;
            if modifier == 1 {
                out.push(27u8);
                out.push(79u8);
                out.push(letter);
            } else {
                push_csi(out);
                out.push(49u8);
                out.push(59u8);
                push_decimal(out, modifier);
                out.push(letter);
            }
            assert(final(out)@ =~= old(out)@ + key_body(code, m, false));
            return;
        }
    }
    let number = tilde_number(code);
    if number != 0 {
        push_csi(out);
        push_decimal(out, number);
        if modifier != 1 {
            out.push(59u8);
            push_decimal(out, modifier);
        }
        out.push(126u8);
    }
    assert(final(out)@ =~= old(out)@ + key_body(code, m, false));
}

/// Encodes a key for the child. Release events produce nothing; Alt prefixes
/// ESC; Shift+Enter uses the `CSI 13 ; m u` form so it stays distinct from a
/// plain submit, while Enter with only Ctrl or Alt stays `\r`.
pub fn key_bytes(key: KeyEvent, application_cursor: bool) -> (bytes: Vec<u8>)
    ensures
        bytes@ == spec_key_bytes(key, application_cursor),
{
    let m = key.modifiers;
    let modifier = modifier_value(m);
    let mut out: Vec<u8> = Vec::new();
    if key.kind == KeyEventKind::Release {
        return out;
    }
    let prefixed = m.alt && match key.code {
        KeyCode::Char(_) | KeyCode::Backspace | KeyCode::Esc => true,
        KeyCode::Tab => !m.shift,
        KeyCode::Enter => !m.shift,
        _ => false,
    };
    if prefixed {
        out.push(27u8);
    }
    let ghost prefix = out@;
    match key.code {
        KeyCode::Char(c) => push_char_key(&mut out, c, m.control),
        KeyCode::Enter => {
            if m.shift {
                push_csi(&mut out);
                push_decimal(&mut out, 13);
                out.push(59u8);
                push_decimal(&mut out, modifier);
                out.push(117u8);
            } else {
                out.push(13u8);
            }
        },
        KeyCode::Tab => {
            if m.shift {
                push_csi(&mut out);
                out.push(90u8);
            } else {
                out.push(9u8);
            }
        },
        KeyCode::BackTab => {
            push_csi(&mut out);
            out.push(90u8);
        },
        KeyCode::Backspace => {
            out.push(if m.control { 8u8 } else { 127u8 });
        },
        KeyCode::Esc => {
            out.push(27u8);
        },
        KeyCode::Up | KeyCode::Down | KeyCode::Right | KeyCode::Left | KeyCode::Home
        | KeyCode::End => push_cursor_key(&mut out, key.code, m, application_cursor),
        _ => push_function_key(&mut out, key.code, m),
    }
    assert(out@ =~= prefix + key_body(key.code, m, application_cursor));
    assert(out@ =~= spec_key_bytes(key, application_cursor));
    out
}

/// Text exactly as pasted, wrapped in bracketed-paste markers only when the
/// child enabled that mode.
pub open spec fn spec_paste_bytes(text: Seq<char>, bracketed: bool) -> Seq<u8> {
    if bracketed {
        csi() + seq![50u8, 48u8, 48u8, 126u8] + utf8(text) + csi() + seq![50u8, 48u8, 49u8, 126u8]
    } else {
        utf8(text)
    }
}

pub fn paste_bytes(text: &str, bracketed: bool) -> (bytes: Vec<u8>)
    ensures
        bytes@ == spec_paste_bytes(text@, bracketed),
{
    let mut out: Vec<u8> = Vec::new();
    if bracketed {
        push_csi(&mut out);
        out.push(50u8);
        out.push(48u8);
        out.push(48u8);
        out.push(126u8);
    }
    push_bytes(&mut out, text.as_bytes());
    if bracketed {
        push_csi(&mut out);
        out.push(50u8);
        out.push(48u8);
        out.push(49u8);
        out.push(126u8);
    }
    assert(out@ =~= spec_paste_bytes(text@, bracketed));
    out
}

#[derive(Clone, Copy, Debug, PartialEq, Eq, Structural)]
pub enum MouseButton {
    Left,
    Middle,
    Right,
}

#[derive(Clone, Copy, Debug, PartialEq, Eq, Structural)]
pub enum MouseEventKind {
    Down(MouseButton),
    Up(MouseButton),
    Drag(MouseButton),
    Moved,
    ScrollUp,
    ScrollDown,
    ScrollLeft,
    ScrollRight,
}

/// A host mouse event; `column` and `row` are zero-based host cells.
#[derive(Clone, Copy, Debug, PartialEq, Eq, Structural)]
pub struct MouseEvent {
    pub kind: MouseEventKind,
    pub column: u16,
    pub row: u16,
    pub modifiers: KeyModifiers,
}

/// Which mouse events the child asked to receive.
#[derive(Clone, Copy, Debug, PartialEq, Eq, Structural)]
pub enum MouseProtocolMode {
    /// No mouse reporting (the parser's `None` mode).
    Disabled,
    Press,
    PressRelease,
    ButtonMotion,
    AnyMotion,
}

/// How the child asked mouse reports to be encoded.
#[derive(Clone, Copy, Debug, PartialEq, Eq, Structural)]
pub enum MouseProtocolEncoding {
    Default,
    Utf8,
    Sgr,
}

pub open spec fn button_code(b: MouseButton) -> nat {
    match b {
        MouseButton::Left => 0,
        MouseButton::Middle => 1,
        MouseButton::Right => 2,
    }
}

/// The report code before modifier bits, or `None` when the mode does not
/// report this kind of event.
pub open spec fn mouse_base_code(
    kind: MouseEventKind,
    mode: MouseProtocolMode,
    encoding: MouseProtocolEncoding,
) -> Option<nat> {
    match kind {
        MouseEventKind::Down(b) => Some(button_code(b)),
        MouseEventKind::Up(b) => if mode == MouseProtocolMode::Press {
            None
        } else if encoding == MouseProtocolEncoding::Sgr {
            Some(button_code(b))
        } else {
            Some(3)
        },
        MouseEventKind::Drag(b) => if mode == MouseProtocolMode::ButtonMotion || mode
            == MouseProtocolMode::AnyMotion {
            Some(32 + button_code(b))
        } else {
            None
        },
        MouseEventKind::Moved => if mode == MouseProtocolMode::AnyMotion {
            Some(35)
        } else {
            None
        },
        MouseEventKind::ScrollUp => Some(64),
        MouseEventKind::ScrollDown => Some(65),
        MouseEventKind::ScrollLeft => Some(66),
        MouseEventKind::ScrollRight => Some(67),
    }
}

pub open spec fn mouse_code(base: nat, m: KeyModifiers) -> nat {
    base + (if m.shift { 4nat } else { 0 }) + (if m.alt { 8nat } else { 0 }) + (if m.control {
        16nat
    } else {
        0
    })
}

/// One coordinate or code in the legacy `CSI M` form, if it can be encoded.
pub open spec fn legacy_unit(v: nat, encoding: MouseProtocolEncoding) -> Option<Seq<u8>> {
    if encoding == MouseProtocolEncoding::Utf8 {
        if v <= 0x10FFFF && is_scalar(v as u32) {
            Some(encode_scalar(v as u32))
        } else {
            None
        }
    } else if v <= 255 {
        Some(seq![v as u8])
    } else {
        None
    }
}

/// The report the child receives for a mouse event at logical column
/// `logical_col` (zero-based), or nothing when the child's mode excludes it or a
/// legacy encoding cannot represent it.
pub open spec fn spec_mouse_bytes(
    event: MouseEvent,
    mode: MouseProtocolMode,
    encoding: MouseProtocolEncoding,
    logical_col: u16,
) -> Seq<u8> {
    if mode == MouseProtocolMode::Disabled {
        Seq::empty()
    } else {
        match mouse_base_code(event.kind, mode, encoding) {
            None => Seq::empty(),
            Some(base) => {
                let code = mouse_code(base, event.modifiers);
                let x = logical_col + 1;
                let y = event.row + 1;
                if encoding == MouseProtocolEncoding::Sgr {
                    sgr_report(code, x as nat, y as nat, event.kind is Up)
                } else {
                    legacy_report(code, x as nat, y as nat, encoding)
                }
            },
        }
    }
}

/// `CSI < code ; x ; y M` (or a final `m` for a release).
pub open spec fn sgr_report(code: nat, x: nat, y: nat, release: bool) -> Seq<u8> {
    csi() + seq![60u8] + decimal(code) + seq![59u8] + decimal(x) + seq![59u8] + decimal(y)
        + seq![if release { 109u8 } else { 77u8 }]
}

/// `CSI M` followed by the code and coordinates offset by 32, or nothing when
/// one of them cannot be represented.
pub open spec fn legacy_report(code: nat, x: nat, y: nat, encoding: MouseProtocolEncoding) -> Seq<
    u8,
> {
    match (
        legacy_unit(code + 32, encoding),
        legacy_unit(x + 32, encoding),
        legacy_unit(y + 32, encoding),
    ) {
        (Some(a), Some(b), Some(c)) => csi() + seq![77u8] + a + b + c,
        _ => Seq::empty(),
    }
}

fn sgr_bytes(code: u32, x: u32, y: u32, release: bool) -> (out: Vec<u8>)
    ensures
        out@ == sgr_report(code as nat, x as nat, y as nat, release),
{
    let mut out: Vec<u8> = Vec::new();
    push_csi(&mut out);
    out.push(60u8);
    push_decimal(&mut out, code as u64);
    out.push(59u8);
    push_decimal(&mut out, x as u64);
    out.push(59u8);
    push_decimal(&mut out, y as u64);
    out.push(if release { 109u8 } else { 77u8 });
    assert(out@ =~= sgr_report(code as nat, x as nat, y as nat, release));
    out
}

fn legacy_bytes(code: u32, x: u32, y: u32, encoding: MouseProtocolEncoding) -> (out: Vec<u8>)
    requires
        code <= 1000,
        x <= 70000,
        y <= 70000,
    ensures
        out@ == legacy_report(code as nat, x as nat, y as nat, encoding),
{
    let mut out: Vec<u8> = Vec::new();
    push_csi(&mut out);
    out.push(77u8);
    if !push_legacy_unit(&mut out, code + 32, encoding) {
        return Vec::new();
    }
    if !push_legacy_unit(&mut out, x + 32, encoding) {
        return Vec::new();
    }
    if !push_legacy_unit(&mut out, y + 32, encoding) {
        return Vec::new();
    }
    assert(out@ =~= legacy_report(code as nat, x as nat, y as nat, encoding));
    out
}

fn mouse_base(kind: MouseEventKind, mode: MouseProtocolMode, encoding: MouseProtocolEncoding) -> (r:
    Option<u32>)
    ensures
        r matches Some(v) ==> mouse_base_code(kind, mode, encoding) == Some(v as nat),
        r is None ==> mouse_base_code(kind, mode, encoding) is None,
        r matches Some(v) ==> v <= 67,
{
    let button = |b: MouseButton| -> (v: u32)
        ensures
            v == button_code(b),
        {
            match b {
                MouseButton::Left => 0u32,
                MouseButton::Middle => 1u32,
                MouseButton::Right => 2u32,
            }
        };
    match kind {
        MouseEventKind::Down(b) => Some(button(b)),
        MouseEventKind::Up(b) => if mode == MouseProtocolMode::Press {
            None
        } else if encoding == MouseProtocolEncoding::Sgr {
            Some(button(b))
        } else {
            Some(3)
        },
        MouseEventKind::Drag(b) => if mode == MouseProtocolMode::ButtonMotion || mode
            == MouseProtocolMode::AnyMotion {
            Some(32 + button(b))
        } else {
            None
        },
        MouseEventKind::Moved => if mode == MouseProtocolMode::AnyMotion {
            Some(35)
        } else {
            None
        },
        MouseEventKind::ScrollUp => Some(64),
        MouseEventKind::ScrollDown => Some(65),
        MouseEventKind::ScrollLeft => Some(66),
        MouseEventKind::ScrollRight => Some(67),
    }
}

fn push_legacy_unit(out: &mut Vec<u8>, v: u32, encoding: MouseProtocolEncoding) -> (ok: bool)
    ensures
        ok == (legacy_unit(v as nat, encoding) is Some),
        ok ==> final(out)@ == old(out)@ + legacy_unit(v as nat, encoding)->0,
        !ok ==> final(out)@ == old(out)@,
{
    if encoding == MouseProtocolEncoding::Utf8 {
        if v <= 0x10FFFF && !(0xD800 <= v && v <= 0xDFFF) {
            push_scalar(out, v);
            true
        } else {
            false
        }
    } else if v <= 255 {
        out.push(v as u8);
        assert(final(out)@ =~= old(out)@ + seq![v as u8]);
        true
    } else {
        false
    }
}

/// Encodes a mouse event for the child at logical column `logical_col`,
/// honouring the child's reporting mode and encoding.
pub fn mouse_bytes(
    event: MouseEvent,
    mode: MouseProtocolMode,
    encoding: MouseProtocolEncoding,
    logical_col: u16,
) -> (bytes: Vec<u8>)
    ensures
        bytes@ == spec_mouse_bytes(event, mode, encoding, logical_col),
{
    let mut out: Vec<u8> = Vec::new();
    if mode == MouseProtocolMode::Disabled {
        return out;
    }
    let base = match mouse_base(event.kind, mode, encoding) {
        Some(v) => v,
        None => return out,
    };
    let mut code: u32 = base;
    if event.modifiers.shift {
        code = code + 4;
    }
    if event.modifiers.alt {
        code = code + 8;
    }
    if event.modifiers.control {
        code = code + 16;
    }
    assert(code == mouse_code(base as nat, event.modifiers));
    let x: u32 = logical_col as u32 + 1;
    let y: u32 = event.row as u32 + 1;
    let release = match event.kind {
        MouseEventKind::Up(_) => true,
        _ => false,
    };
    if encoding == MouseProtocolEncoding::Sgr {
        sgr_bytes(code, x, y, release)
    } else {
        legacy_bytes(code, x, y, encoding)
    }
}

} // verus!
