//! Answers terminal queries from the child's logical state, never from the
//! reordered host display.
use vstd::prelude::*;
use crate::bytes::{decimal, push_bytes, push_decimal};
use crate::hyperlink::{valid_link, Hyperlink};
use crate::text::{chars_of, digits, push_all, push_digits, string_from_chars, string_from_utf8};

verus! {

/// What the protocol reads of the child's logical screen.
#[derive(Clone, Copy, Debug, PartialEq, Eq, Structural)]
pub struct ScreenState {
    pub rows: u16,
    pub cols: u16,
    pub cursor_row: u16,
    pub cursor_col: u16,
    pub application_cursor: bool,
    pub hide_cursor: bool,
    pub alternate_screen: bool,
    pub bracketed_paste: bool,
}

/// Replies and mode flags owned by the wrapper rather than the screen.
pub struct Protocol {
    pub replies: Vec<u8>,
    pub bell: bool,
    pub clear_scrollback: bool,
    pub focus_events: bool,
    pub synchronized_output: bool,
    /// Counter behind automatically numbered link identifiers.
    pub hyperlink_serial: u64,
}

/// What an OSC asks of the screen's current hyperlink.
pub enum OscAction {
    /// Leave the current link unchanged.
    Keep,
    /// Replace the current link (`None` closes it).
    SetHyperlink(Option<Hyperlink>),
}

pub open spec fn link_view(link: Option<Hyperlink>) -> Option<(Seq<char>, Seq<char>)> {
    match link {
        Some(l) => Some(l@),
        None => None,
    }
}

/// `ESC [`
pub open spec fn csi() -> Seq<u8> {
    seq![27u8, 91u8]
}

/// The primary device attributes reply, `CSI ? 1 ; 2 c` (a VT100 with options).
pub open spec fn device_attributes() -> Seq<u8> {
    csi() + seq![63u8, 49u8, 59u8, 50u8, 99u8]
}

pub open spec fn first_param(params: Seq<Vec<u16>>) -> u16 {
    if params.len() > 0 && params[0]@.len() > 0 {
        params[0]@[0]
    } else {
        0
    }
}

pub open spec fn has_param(params: Seq<Vec<u16>>, value: u16) -> bool {
    exists|i: int| 0 <= i < params.len() && params[i]@.len() > 0 && params[i]@[0] == value
}

/// The DECRQM state of a mode: 1 set, 2 reset, 0 unknown.
pub open spec fn mode_value(
    mode: u16,
    screen: ScreenState,
    focus_events: bool,
    synchronized_output: bool,
) -> nat {
    let state: Option<bool> = if mode == 1 {
        Some(screen.application_cursor)
    } else if mode == 25 {
        Some(!screen.hide_cursor)
    } else if mode == 1004 {
        Some(focus_events)
    } else if mode == 1049 {
        Some(screen.alternate_screen)
    } else if mode == 2004 {
        Some(screen.bracketed_paste)
    } else if mode == 2026 {
        Some(synchronized_output)
    } else {
        None
    };
    match state {
        Some(true) => 1,
        Some(false) => 2,
        None => 0,
    }
}

/// The reply to an unhandled CSI, given the flags before it.
pub open spec fn csi_reply(
    screen: ScreenState,
    i1: Option<u8>,
    i2: Option<u8>,
    params: Seq<Vec<u16>>,
    c: char,
    focus_events: bool,
    synchronized_output: bool,
) -> Seq<u8> {
    let first = first_param(params);
    if i1 is None && i2 is None && c == 'n' && first == 5 {
        csi() + seq![48u8, 110u8]
    } else if (i1 is None || i1 == Some(63u8)) && i2 is None && c == 'n' && first == 6 {
        let col = if screen.cursor_col < screen.cols - 1 {
            screen.cursor_col as nat
        } else {
            (screen.cols - 1) as nat
        };
        csi() + (if i1 is Some {
            seq![63u8]
        } else {
            Seq::empty()
        }) + decimal((screen.cursor_row + 1) as nat) + seq![59u8] + decimal(col + 1) + seq![82u8]
    } else if i1 is None && i2 is None && c == 'c' && first == 0 {
        device_attributes()
    } else if i1 == Some(62u8) && i2 is None && c == 'c' && first == 0 {
        csi() + seq![62u8, 48u8, 59u8, 49u8, 48u8, 48u8, 59u8, 48u8, 99u8]
    } else if i1 == Some(63u8) && i2 is None && c == 'u' {
        csi() + seq![63u8, 48u8, 117u8]
    } else if i1 is None && i2 is None && c == 't' && first == 18 {
        csi() + seq![56u8, 59u8] + decimal(screen.rows as nat) + seq![59u8] + decimal(
            screen.cols as nat,
        ) + seq![116u8]
    } else if i1 == Some(63u8) && i2 == Some(36u8) && c == 'p' {
        csi() + seq![63u8] + decimal(first as nat) + seq![59u8] + decimal(
            mode_value(first, screen, focus_events, synchronized_output),
        ) + seq![36u8, 121u8]
    } else {
        Seq::empty()
    }
}

/// Whether the CSI is a private mode set/reset (`CSI ? … h` or `l`).
pub open spec fn is_private_mode(i1: Option<u8>, i2: Option<u8>, c: char) -> bool {
    i1 == Some(63u8) && i2 is None && (c == 'h' || c == 'l')
}

/// The value of a mode flag after a CSI: a private set/reset that lists `mode`
/// turns it on for `h` and off for `l`; anything else leaves it.
pub open spec fn mode_after(
    old: bool,
    mode: u16,
    i1: Option<u8>,
    i2: Option<u8>,
    params: Seq<Vec<u16>>,
    c: char,
) -> bool {
    if is_private_mode(i1, i2, c) && has_param(params, mode) {
        c == 'h'
    } else {
        old
    }
}

/// Whether the CSI asks to erase saved lines (`CSI 3 J`).
pub open spec fn is_erase_saved(i1: Option<u8>, i2: Option<u8>, params: Seq<Vec<u16>>, c: char) -> bool {
    i1 is None && i2 is None && c == 'J' && first_param(params) == 3
}

/// Sum over the parameters of their length plus one separator.
pub open spec fn osc_size(params: Seq<Vec<u8>>) -> nat
    decreases params.len(),
{
    if params.len() == 0 {
        0
    } else {
        osc_size(params.drop_last()) + params.last()@.len() + 1
    }
}

/// The parameters joined by `;`.
pub open spec fn joined(params: Seq<Vec<u8>>) -> Seq<u8>
    decreases params.len(),
{
    if params.len() == 0 {
        Seq::empty()
    } else if params.len() == 1 {
        params[0]@
    } else {
        joined(params.drop_last()) + seq![59u8] + params.last()@
    }
}

/// The first `:`-separated field of `s` that starts with `id=`, without that
/// prefix.
pub open spec fn id_field(s: Seq<char>) -> Option<Seq<char>> {
    id_field_from(s, 0)
}

/// `id_field` over the fields that start at or after `start`.
pub open spec fn id_field_from(s: Seq<char>, start: int) -> Option<Seq<char>>
    decreases s.len() - start,
{
    if start < 0 || start > s.len() {
        None
    } else {
        let end = field_end(s, start);
        let field = s.subrange(start, end);
        if field.len() >= 3 && field[0] == 'i' && field[1] == 'd' && field[2] == '=' {
            Some(field.skip(3))
        } else if end < s.len() {
            proof {
                lemma_field_end_bounds(s, start);
            }
            id_field_from(s, end + 1)
        } else {
            None
        }
    }
}

/// Index of the first `:` at or after `from`, or the length.
pub open spec fn field_end(s: Seq<char>, from: int) -> int
    decreases s.len() - from,
{
    if from >= s.len() {
        s.len() as int
    } else if s[from] == ':' {
        from
    } else {
        field_end(s, from + 1)
    }
}

pub proof fn lemma_field_end_bounds(s: Seq<char>, from: int)
    requires
        0 <= from,
    ensures
        from <= field_end(s, from) <= s.len() || (from > s.len() && field_end(s, from) == s.len()),
        field_end(s, from) >= 0,
        field_end(s, from) < s.len() ==> s[field_end(s, from)] == ':',
        forall|k: int| from <= k < field_end(s, from) ==> s[k] != ':',
    decreases s.len() - from,
{
    if from < s.len() && s[from] != ':' {
        lemma_field_end_bounds(s, from + 1);
    }
}

/// The link identifier: the child's own non-empty `id=` value, namespaced by
/// process, or a process-unique serial.
pub open spec fn link_id(parameters: Seq<char>, pid: u32, serial: u64) -> Seq<char> {
    let prefix = seq!['r', 't', 'l', '-'] + digits(pid as nat);
    match id_field(parameters) {
        Some(id) if id.len() > 0 => prefix + seq!['-', 'i', 'd', '-'] + id,
        _ => prefix + seq!['-', 'a', 'u', 't', 'o', '-'] + digits(serial as nat),
    }
}

/// The decoded OSC 8 destination and parameters, when the sequence is bounded
/// and both are UTF-8.
pub open spec fn osc8_parts(params: Seq<Vec<u8>>) -> Option<(Seq<char>, Seq<char>)> {
    if params.len() < 3 || osc_size(params) > 9216 {
        None
    } else if !vstd::utf8::valid_utf8(joined(params.skip(2))) || !vstd::utf8::valid_utf8(
        params[1]@,
    ) {
        None
    } else {
        Some(
            (
                vstd::utf8::decode_utf8(joined(params.skip(2))),
                vstd::utf8::decode_utf8(params[1]@),
            ),
        )
    }
}

pub open spec fn is_osc8(params: Seq<Vec<u8>>) -> bool {
    params.len() > 0 && params[0]@ == seq![56u8]
}

/// The colour query a supported OSC asks (`OSC 10 ; ?` or `OSC 11 ; ?`).
pub open spec fn colour_reply(params: Seq<Vec<u8>>) -> Seq<u8> {
    if params.len() > 1 && params[1]@ == seq![63u8] && params[0]@ == seq![49u8, 48u8] {
        seq![27u8, 93u8, 49u8, 48u8] + colour_tail(100u8)
    } else if params.len() > 1 && params[1]@ == seq![63u8] && params[0]@ == seq![49u8, 49u8] {
        seq![27u8, 93u8, 49u8, 49u8] + colour_tail(49u8)
    } else {
        Seq::empty()
    }
}

/// `;rgb:hhhh/hhhh/hhhh ESC \\` with every hex digit `h` (`d` for the
/// foreground, `1` for the background of a deterministic dark palette).
pub open spec fn colour_tail(h: u8) -> Seq<u8> {
    seq![59u8, 114u8, 103u8, 98u8, 58u8, h, h, h, h, 47u8, h, h, h, h, 47u8, h, h, h, h, 27u8, 92u8]
}

impl Default for Protocol {
    fn default() -> (p: Protocol)
        ensures
            p.replies@ == Seq::<u8>::empty(),
            !p.bell && !p.clear_scrollback && !p.focus_events && !p.synchronized_output,
            p.hyperlink_serial == 0,
    {
        Protocol::new()
    }
}

impl Protocol {
    /// A protocol with no pending replies and every flag off.
    pub fn new() -> (p: Protocol)
        ensures
            p.replies@ == Seq::<u8>::empty(),
            !p.bell && !p.clear_scrollback && !p.focus_events && !p.synchronized_output,
            p.hyperlink_serial == 0,
    {
        Protocol {
            replies: Vec::new(),
            bell: false,
            clear_scrollback: false,
            focus_events: false,
            synchronized_output: false,
            hyperlink_serial: 0,
        }
    }

    /// BEL: remember to ring the host's bell.
    pub fn audible_bell(&mut self)
        ensures
            final(self).bell,
            final(self).replies@ == old(self).replies@,
            final(self).clear_scrollback == old(self).clear_scrollback,
            final(self).focus_events == old(self).focus_events,
            final(self).synchronized_output == old(self).synchronized_output,
            final(self).hyperlink_serial == old(self).hyperlink_serial,
    {
        self.bell = true;
    }

    /// A full reset (RIS) discards stale replies and the bell and turns off the
    /// modes this protocol owns.
    pub fn reset(&mut self)
        ensures
            final(self).replies@ == Seq::<u8>::empty(),
            !final(self).bell && !final(self).focus_events && !final(self).synchronized_output,
            final(self).clear_scrollback == old(self).clear_scrollback,
            final(self).hyperlink_serial == old(self).hyperlink_serial,
    {
        self.replies = Vec::new();
        self.bell = false;
        self.focus_events = false;
        self.synchronized_output = false;
    }

    /// An unhandled escape: `ESC Z` (DECID) is answered like primary device
    /// attributes; others are ignored.
    pub fn unhandled_escape(&mut self, i1: Option<u8>, c: u8)
        ensures
            final(self).replies@ == old(self).replies@ + (if i1 is None && c == 90u8 {
                device_attributes()
            } else {
                Seq::empty()
            }),
            final(self).bell == old(self).bell,
            final(self).clear_scrollback == old(self).clear_scrollback,
            final(self).focus_events == old(self).focus_events,
            final(self).synchronized_output == old(self).synchronized_output,
            final(self).hyperlink_serial == old(self).hyperlink_serial,
    {
        if i1.is_none() && c == 90u8 {
            self.replies.push(27u8);
            self.replies.push(91u8);
            self.replies.push(63u8);
            self.replies.push(49u8);
            self.replies.push(59u8);
            self.replies.push(50u8);
            self.replies.push(99u8);
        }
        assert(self.replies@ =~= old(self).replies@ + (if i1 is None && c == 90u8 {
            device_attributes()
        } else {
            Seq::empty()
        }));
    }
}

/// The identifier field's bounds within `s`, as `id_field` finds it.
fn find_id_field(s: &Vec<char>) -> (r: Option<(usize, usize)>)
    ensures
        match r {
            Some((a, b)) => a <= b <= s@.len() && id_field(s@) == Some(s@.subrange(a as int, b as int)),
            None => id_field(s@) is None,
        },
{
    let mut start: usize = 0;
    while start <= s.len()
        invariant
            start <= s@.len() + 1,
            id_field(s@) == id_field_from(s@, start as int),
        decreases s@.len() + 1 - start,
    {
        let mut end: usize = start;
        while end < s.len() && s[end] != ':'
            invariant
                start <= end <= s@.len(),
                field_end(s@, start as int) == field_end(s@, end as int),
            decreases s@.len() - end,
        {
            end = end + 1;
        }
        proof {
            lemma_field_end_bounds(s@, start as int);
        }
        assert(field_end(s@, end as int) == end);
        if end - start >= 3 && s[start] == 'i' && s[start + 1] == 'd' && s[start + 2] == '=' {
            assert(s@.subrange(start as int, end as int).skip(3) =~= s@.subrange(start + 3, end as int));
            return Some((start + 3, end));
        }
        if end < s.len() {
            start = end + 1;
        } else {
            return None;
        }
    }
    None
}

fn subrange_vec(s: &Vec<char>, a: usize, b: usize) -> (r: Vec<char>)
    requires
        a <= b <= s@.len(),
    ensures
        r@ == s@.subrange(a as int, b as int),
{
    let mut r: Vec<char> = Vec::new();
    let mut i = a;
    while i < b
        invariant
            a <= i <= b,
            b <= s@.len(),
            r@ == s@.subrange(a as int, i as int),
        decreases b - i,
    {
        r.push(s[i]);
        i = i + 1;
        assert(r@ =~= s@.subrange(a as int, i as int));
    }
    r
}

/// Builds the link identifier characters.
fn make_link_id(parameters: &Vec<char>, pid: u32, serial: u64) -> (id: Vec<char>)
    ensures
        id@ == link_id(parameters@, pid, serial),
{
    let mut id: Vec<char> = Vec::new();
    id.push('r');
    id.push('t');
    id.push('l');
    id.push('-');
    push_digits(&mut id, pid as u64);
    let ghost prefix = id@;
    assert(prefix =~= seq!['r', 't', 'l', '-'] + digits(pid as nat));
    match find_id_field(parameters) {
        Some((a, b)) if b > a => {
            id.push('-');
            id.push('i');
            id.push('d');
            id.push('-');
            let field = subrange_vec(parameters, a, b);
            push_all(&mut id, field.as_slice());
            assert(id@ =~= link_id(parameters@, pid, serial));
        },
        _ => {
            id.push('-');
            id.push('a');
            id.push('u');
            id.push('t');
            id.push('o');
            id.push('-');
            push_digits(&mut id, serial);
            assert(id@ =~= link_id(parameters@, pid, serial));
        },
    }
    id
}

pub proof fn lemma_osc_size_prefix(params: Seq<Vec<u8>>, i: int)
    requires
        0 <= i <= params.len(),
    ensures
        osc_size(params.take(i)) <= osc_size(params),
    decreases params.len() - i,
{
    if i < params.len() {
        lemma_osc_size_prefix(params, i + 1);
        assert(params.take(i + 1).drop_last() =~= params.take(i));
    } else {
        assert(params.take(i) =~= params);
    }
}

/// Whether the parameters total more than 9216 bytes with separators.
fn osc_too_large(params: &[Vec<u8>]) -> (r: bool)
    ensures
        r == (osc_size(params@) > 9216),
{
    let mut total: usize = 0;
    let mut i: usize = 0;
    assert(params@.take(0) =~= Seq::<Vec<u8>>::empty());
    while i < params.len()
        invariant
            i <= params@.len(),
            total == osc_size(params@.take(i as int)),
            total <= 9216,
        decreases params@.len() - i,
    {
        assert(params@.take(i + 1).drop_last() =~= params@.take(i as int));
        if params[i].len() > 9216 - total {
            proof {
                lemma_osc_size_prefix(params@, i + 1);
            }
            return true;
        }
        total = total + params[i].len() + 1;
        i = i + 1;
        if total > 9216 {
            proof {
                lemma_osc_size_prefix(params@, i as int);
            }
            return true;
        }
    }
    assert(params@.take(i as int) =~= params@);
    false
}

/// The parameters from index 2 on, joined by `;`.
fn join_tail(params: &[Vec<u8>]) -> (r: Vec<u8>)
    requires
        params@.len() >= 3,
    ensures
        r@ == joined(params@.skip(2)),
{
    let mut r: Vec<u8> = Vec::new();
    push_bytes(&mut r, params[2].as_slice());
    let mut i: usize = 3;
    assert(params@.skip(2).take(1) =~= seq![params@[2]]);
    assert(r@ =~= joined(params@.skip(2).take(1)));
    while i < params.len()
        invariant
            3 <= i <= params@.len(),
            r@ == joined(params@.skip(2).take(i - 2)),
        decreases params@.len() - i,
    {
        r.push(59u8);
        push_bytes(&mut r, params[i].as_slice());
        assert(params@.skip(2).take(i + 1 - 2).drop_last() =~= params@.skip(2).take(i - 2));
        i = i + 1;
        assert(r@ =~= joined(params@.skip(2).take(i - 2)));
    }
    assert(params@.skip(2).take(i - 2) =~= params@.skip(2));
    r
}

pub open spec fn wrapping_next(serial: u64) -> u64 {
    if serial == u64::MAX {
        0
    } else {
        (serial + 1) as u64
    }
}

/// The link an OSC 8 establishes: its destination and identifier when the
/// sequence is bounded, UTF-8 and valid; otherwise none (the link closes).
pub open spec fn osc8_link(params: Seq<Vec<u8>>, pid: u32, serial: u64) -> Option<
    (Seq<char>, Seq<char>),
> {
    match osc8_parts(params) {
        None => None,
        Some((uri, parameters)) => {
            let id = link_id(parameters, pid, wrapping_next(serial));
            if valid_link(uri, id) {
                Some((uri, id))
            } else {
                None
            }
        },
    }
}

/// The reply to a query CSI (every unhandled CSI except private mode
/// set/reset and saved-line erase).
fn query_reply(
    screen: ScreenState,
    i1: Option<u8>,
    i2: Option<u8>,
    first: u16,
    c: char,
    focus_events: bool,
    synchronized_output: bool,
) -> (r: Vec<u8>)
    requires
        screen.cols >= 1,
        !is_private_mode(i1, i2, c),
        !(i1 is None && i2 is None && c == 'J' && first == 3),
    ensures
        forall|params: Seq<Vec<u16>>|
            first_param(params) == first ==> r@ == #[trigger] csi_reply(
                screen,
                i1,
                i2,
                params,
                c,
                focus_events,
                synchronized_output,
            ),
{
    let mut out: Vec<u8> = Vec::new();
    if i1.is_none() && i2.is_none() && c == 'n' && first == 5 {
        push_bytes(&mut out, &[27u8, 91u8, 48u8, 110u8]);
    } else if (i1.is_none() || i1 == Some(63u8)) && i2.is_none() && c == 'n' && first == 6 {
        let col: u16 = if screen.cursor_col < screen.cols - 1 {
            screen.cursor_col
        } else {
            screen.cols - 1
        };
        out.push(27u8);
        out.push(91u8);
        if i1.is_some() {
            out.push(63u8);
        }
        push_decimal(&mut out, screen.cursor_row as u64 + 1);
        out.push(59u8);
        push_decimal(&mut out, col as u64 + 1);
        out.push(82u8);
    } else if i1.is_none() && i2.is_none() && c == 'c' && first == 0 {
        push_bytes(&mut out, &[27u8, 91u8, 63u8, 49u8, 59u8, 50u8, 99u8]);
    } else if i1 == Some(62u8) && i2.is_none() && c == 'c' && first == 0 {
        push_bytes(&mut out, &[27u8, 91u8, 62u8, 48u8, 59u8, 49u8, 48u8, 48u8, 59u8, 48u8, 99u8]);
    } else if i1 == Some(63u8) && i2.is_none() && c == 'u' {
        push_bytes(&mut out, &[27u8, 91u8, 63u8, 48u8, 117u8]);
    } else if i1.is_none() && i2.is_none() && c == 't' && first == 18 {
        push_bytes(&mut out, &[27u8, 91u8, 56u8, 59u8]);
        push_decimal(&mut out, screen.rows as u64);
        out.push(59u8);
        push_decimal(&mut out, screen.cols as u64);
        out.push(116u8);
    } else if i1 == Some(63u8) && i2 == Some(36u8) && c == 'p' {
        let value = mode_state(first, screen, focus_events, synchronized_output);
        out.push(27u8);
        out.push(91u8);
        out.push(63u8);
        push_decimal(&mut out, first as u64);
        out.push(59u8);
        push_decimal(&mut out, value);
        out.push(36u8);
        out.push(121u8);
    }
    assert forall|params: Seq<Vec<u16>>|
        first_param(params) == first implies out@ == #[trigger] csi_reply(
        screen,
        i1,
        i2,
        params,
        c,
        focus_events,
        synchronized_output,
    ) by {
        assert(out@ =~= csi_reply(screen, i1, i2, params, c, focus_events, synchronized_output));
    }
    out
}

fn mode_state(mode: u16, screen: ScreenState, focus_events: bool, synchronized_output: bool) -> (v:
    u64)
    ensures
        v == mode_value(mode, screen, focus_events, synchronized_output),
{
    let state: Option<bool> = if mode == 1 {
        Some(screen.application_cursor)
    } else if mode == 25 {
        Some(!screen.hide_cursor)
    } else if mode == 1004 {
        Some(focus_events)
    } else if mode == 1049 {
        Some(screen.alternate_screen)
    } else if mode == 2004 {
        Some(screen.bracketed_paste)
    } else if mode == 2026 {
        Some(synchronized_output)
    } else {
        None
    };
    match state {
        Some(true) => 1,
        Some(false) => 2,
        None => 0,
    }
}

impl Protocol {
    /// An unhandled CSI. Queries are answered from the logical screen; private
    /// modes 1004 and 2026 are tracked here. Returns whether the child asked to
    /// erase saved lines (`CSI 3 J`), which the caller applies to its screen.
    pub fn unhandled_csi(
        &mut self,
        screen: ScreenState,
        i1: Option<u8>,
        i2: Option<u8>,
        params: &[Vec<u16>],
        c: char,
    ) -> (erase_saved: bool)
        requires
            screen.cols >= 1,
        ensures
            erase_saved == is_erase_saved(i1, i2, params@, c),
            final(self).replies@ == old(self).replies@ + csi_reply(
                screen,
                i1,
                i2,
                params@,
                c,
                old(self).focus_events,
                old(self).synchronized_output,
            ),
            final(self).focus_events == mode_after(old(self).focus_events, 1004, i1, i2, params@, c),
            final(self).synchronized_output == mode_after(
                old(self).synchronized_output,
                2026,
                i1,
                i2,
                params@,
                c,
            ),
            final(self).clear_scrollback == (old(self).clear_scrollback || erase_saved),
            final(self).bell == old(self).bell,
            final(self).hyperlink_serial == old(self).hyperlink_serial,
    {
        let first: u16 = if params.len() > 0 && params[0].len() > 0 {
            params[0][0]
        } else {
            0
        };
        let ghost reply = csi_reply(
            screen,
            i1,
            i2,
            params@,
            c,
            self.focus_events,
            self.synchronized_output,
        );
        let ghost start = self.replies@;
        if i1.is_none() && i2.is_none() && c == 'J' && first == 3 {
            self.clear_scrollback = true;
            assert(self.replies@ =~= start + reply);
            return true;
        }
        if i1 == Some(63u8) && i2.is_none() && (c == 'h' || c == 'l') {
            let on = c == 'h';
            let ghost focus0 = self.focus_events;
            let ghost sync0 = self.synchronized_output;
            let mut i: usize = 0;
            while i < params.len()
                invariant
                    i <= params@.len(),
                    self.replies@ == start,
                    self.focus_events == (if exists|j: int|
                        0 <= j < i && params@[j]@.len() > 0 && params@[j]@[0] == 1004u16 {
                        on
                    } else {
                        focus0
                    }),
                    self.synchronized_output == (if exists|j: int|
                        0 <= j < i && params@[j]@.len() > 0 && params@[j]@[0] == 2026u16 {
                        on
                    } else {
                        sync0
                    }),
                    self.clear_scrollback == old(self).clear_scrollback,
                    self.bell == old(self).bell,
                    self.hyperlink_serial == old(self).hyperlink_serial,
                decreases params@.len() - i,
            {
                if params[i].len() > 0 {
                    let value = params[i][0];
                    if value == 1004 {
                        self.focus_events = on;
                    } else if value == 2026 {
                        self.synchronized_output = on;
                    }
                }
                i = i + 1;
            }
        } else {
            let bytes = query_reply(screen, i1, i2, first, c, self.focus_events, self.synchronized_output);
            assert(first == first_param(params@));
            push_bytes(&mut self.replies, bytes.as_slice());
        }
        assert(self.replies@ =~= start + reply);
        false
    }

    /// An unhandled OSC. OSC 8 sets or clears the current hyperlink from a
    /// bounded, validated destination; `OSC 10 ; ?` and `OSC 11 ; ?` are
    /// answered with a fixed dark palette; every other OSC is dropped.
    pub fn unhandled_osc(&mut self, params: &[Vec<u8>], pid: u32) -> (action: OscAction)
        ensures
            is_osc8(params@) ==> (action matches OscAction::SetHyperlink(link) && link_view(link)
                == osc8_link(params@, pid, old(self).hyperlink_serial)),
            is_osc8(params@) ==> final(self).hyperlink_serial == (if osc8_parts(params@) is Some {
                wrapping_next(old(self).hyperlink_serial)
            } else {
                old(self).hyperlink_serial
            }),
            is_osc8(params@) ==> final(self).replies@ == old(self).replies@,
            !is_osc8(params@) ==> action is Keep && final(self).replies@ == old(self).replies@
                + colour_reply(params@) && final(self).hyperlink_serial == old(
                self,
            ).hyperlink_serial,
            final(self).bell == old(self).bell,
            final(self).clear_scrollback == old(self).clear_scrollback,
            final(self).focus_events == old(self).focus_events,
            final(self).synchronized_output == old(self).synchronized_output,
    {
        if params.len() > 0 && params[0].len() == 1 && params[0][0] == 56u8 {
            assert(params@[0]@ =~= seq![56u8]);
            if params.len() < 3 || osc_too_large(params) {
                return OscAction::SetHyperlink(None);
            }
            let uri_bytes = join_tail(params);
            let uri = match string_from_utf8(uri_bytes.as_slice()) {
                Some(u) => u,
                None => return OscAction::SetHyperlink(None),
            };
            let parameters = match string_from_utf8(params[1].as_slice()) {
                Some(p) => p,
                None => return OscAction::SetHyperlink(None),
            };
            self.hyperlink_serial = if self.hyperlink_serial == u64::MAX {
                0
            } else {
                self.hyperlink_serial + 1
            };
            let pchars = chars_of(parameters.as_str());
            let id_chars = make_link_id(&pchars, pid, self.hyperlink_serial);
            let id = string_from_chars(id_chars.as_slice());
            return OscAction::SetHyperlink(Hyperlink::new(uri, id));
        }
        let ghost start = self.replies@;
        if params.len() > 1 && params[1].len() == 1 && params[1][0] == 63u8 {
            assert(params@[1]@ =~= seq![63u8]);
            let p0 = &params[0];
            let digit: u8 = if p0.len() == 2 && p0[0] == 49u8 && p0[1] == 48u8 {
                assert(p0@ =~= seq![49u8, 48u8]);
                100u8
            } else if p0.len() == 2 && p0[0] == 49u8 && p0[1] == 49u8 {
                assert(p0@ =~= seq![49u8, 49u8]);
                49u8
            } else {
                assert(p0@ != seq![49u8, 48u8] && p0@ != seq![49u8, 49u8]) by {
                    if p0@ == seq![49u8, 48u8] || p0@ == seq![49u8, 49u8] {
                        assert(p0@.len() == 2);
                    }
                };
                0u8
            };
            if digit != 0 {
                self.replies.push(27u8);
                self.replies.push(93u8);
                self.replies.push(49u8);
                self.replies.push(if digit == 100u8 { 48u8 } else { 49u8 });
                push_bytes(
                    &mut self.replies,
                    &[
                        59u8,
                        114u8,
                        103u8,
                        98u8,
                        58u8,
                        digit,
                        digit,
                        digit,
                        digit,
                        47u8,
                        digit,
                        digit,
                        digit,
                        digit,
                        47u8,
                        digit,
                        digit,
                        digit,
                        digit,
                        27u8,
                        92u8,
                    ],
                );
            }
        }
        assert(self.replies@ =~= start + colour_reply(params@));
        OscAction::Keep
    }
}

} // verus!
