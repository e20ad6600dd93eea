//! Native console key records, turned into session input: modifier-only
//! transitions are dropped, VT sequences typed as characters are collected
//! and decoded, and bracketed pastes are gathered into one paste. A host in
//! win32-input-mode wraps each typed unit in a key-record envelope; the units
//! inside the envelopes are collected on a level of their own.
use vstd::prelude::*;
use crate::input::{KeyCode, KeyEvent, KeyEventKind, KeyModifiers};
use crate::session::console::{
    decode_console_sequence,
    native_input,
    native_key_input,
    spec_decode_text,
    ConsoleSequence,
    KeyRecord,
    SequenceView,
};
use crate::session::interaction::{EventView, HostEvent, HostInput, InputView};
use crate::text::{spec_utf16_lossy, string_from_utf16_lossy};

verus! {

/// An escape sequence being typed, and a paste being gathered.
pub struct Typed {
    opener: Vec<u16>,
    paste: Option<Vec<u16>>,
}

pub struct TypedView {
    pub opener: Seq<u16>,
    pub paste: Option<Seq<u16>>,
}

impl View for Typed {
    type V = TypedView;

    closed spec fn view(&self) -> TypedView {
        TypedView {
            opener: self.opener@,
            paste: match self.paste {
                Some(p) => Some(p@),
                None => None,
            },
        }
    }
}

/// Console input waiting to be handled: decoded inputs in order, what is
/// being typed directly and inside envelopes, and when a unit was last typed.
pub struct ConsoleInput {
    ready: Vec<HostInput>,
    outer: Typed,
    inner: Typed,
    last_key: u64,
}

pub struct ConsoleInputView {
    pub ready: Seq<InputView>,
    pub outer: TypedView,
    pub inner: TypedView,
    pub last_key: u64,
}

pub open spec fn inputs_view(v: Seq<HostInput>) -> Seq<InputView> {
    v.map_values(|i: HostInput| i@)
}

impl View for ConsoleInput {
    type V = ConsoleInputView;

    closed spec fn view(&self) -> ConsoleInputView {
        ConsoleInputView {
            ready: inputs_view(self.ready@),
            outer: self.outer@,
            inner: self.inner@,
            last_key: self.last_key,
        }
    }
}

/// `ESC [ 2 0 1 ~`, the end of a bracketed paste.
pub open spec fn paste_end() -> Seq<u16> {
    seq![27u16, 91u16, 50u16, 48u16, 49u16, 126u16]
}

pub open spec fn modifier_key(k: KeyRecord) -> bool {
    16 <= k.virtual_key_code <= 18 && k.unicode_char == 0
}

/// Whether the escape sequence typed so far is complete: a CSI ends with a
/// unit from `@` to `~`; an SS3 (`ESC O`) takes one more unit; anything else
/// ends at once.
pub open spec fn opener_complete(opener: Seq<u16>, unit: u16) -> bool {
    if opener.len() > 1 && opener[1] == 91 {
        opener.len() > 2 && 64 <= unit <= 126
    } else {
        opener.len() > 2 || unit != 79
    }
}

/// The typing state of a level: 1 for units read directly, 0 for units
/// inside envelopes.
pub open spec fn typed_at(s: ConsoleInputView, level: nat) -> TypedView {
    if level > 0 {
        s.outer
    } else {
        s.inner
    }
}

pub open spec fn with_typed(s: ConsoleInputView, level: nat, t: TypedView) -> ConsoleInputView {
    if level > 0 {
        ConsoleInputView { outer: t, ..s }
    } else {
        ConsoleInputView { inner: t, ..s }
    }
}

pub open spec fn queued(s: ConsoleInputView, i: InputView) -> ConsoleInputView {
    ConsoleInputView { ready: s.ready.push(i), ..s }
}

/// What a decoded sequence adds: an enveloped key record is taken on the
/// level inside; on that level, a pressed key record (not a modifier
/// transition) is queued. An input is queued; a paste starts.
pub open spec fn after_sequence(s: ConsoleInputView, d: SequenceView, now: u64, level: nat) -> ConsoleInputView
    decreases level, 0nat,
{
    match d {
        SequenceView::Key(k) => if level > 0 {
            record_step(s, k, now, (level - 1) as nat)
        } else if k.key_down != 0 && !modifier_key(k) {
            queued(s, native_input(k))
        } else {
            s
        },
        SequenceView::Input(i) => queued(s, i),
        SequenceView::Paste => with_typed(
            s,
            level,
            TypedView { paste: Some(Seq::empty()), ..typed_at(s, level) },
        ),
    }
}

/// One key record at time `now` (milliseconds).
pub open spec fn accept_step(s: ConsoleInputView, key: KeyRecord, now: u64) -> ConsoleInputView {
    record_step(s, key, now, 1)
}

/// A paste grown by `n` copies of `unit`; when it ends with the paste's end
/// marker it is queued without the marker.
pub open spec fn paste_step(s: ConsoleInputView, level: nat, text: Seq<u16>, unit: u16, n: int) -> ConsoleInputView {
    let grown = text + Seq::new(n as nat, |i: int| unit);
    let typed = typed_at(s, level);
    if grown.len() >= 6 && grown.skip(grown.len() - 6) == paste_end() {
        queued(
            with_typed(s, level, TypedView { paste: None, ..typed }),
            InputView {
                event: EventView::Paste(spec_utf16_lossy(grown.take(grown.len() - 6))),
                native_key: None,
            },
        )
    } else {
        with_typed(s, level, TypedView { paste: Some(grown), ..typed })
    }
}

/// One key record on a level.
pub open spec fn record_step(s: ConsoleInputView, key: KeyRecord, now: u64, level: nat) -> ConsoleInputView
    decreases level, 1nat,
{
    let unit = key.unicode_char;
    let alt_code = key.virtual_key_code == 18 && key.key_down == 0 && unit != 0;
    if key.key_down == 0 && !alt_code {
        s
    } else if modifier_key(key) {
        s
    } else if key.virtual_key_code != 0 {
        queued(s, native_input(key))
    } else {
        let t = ConsoleInputView { last_key: now, ..s };
        let typed = typed_at(s, level);
        match typed.paste {
            Some(text) => paste_step(
                t,
                level,
                text,
                unit,
                if key.repeat_count >= 1 {
                    key.repeat_count as int
                } else {
                    1
                },
            ),
            None => if typed.opener.len() == 0 {
                if unit == 27 {
                    with_typed(t, level, TypedView { opener: seq![unit], ..typed })
                } else {
                    queued(t, native_input(key))
                }
            } else {
                let opener = typed.opener.push(unit);
                if opener_complete(opener, unit) || opener.len() >= 128 {
                    after_sequence(
                        with_typed(t, level, TypedView { opener: Seq::empty(), ..typed }),
                        spec_decode_text(spec_utf16_lossy(opener)),
                        now,
                        level,
                    )
                } else {
                    with_typed(t, level, TypedView { opener, ..typed })
                }
            },
        }
    }
}

/// A pending lone Escape given up on: it becomes an Escape key carrying the
/// typed units.
pub open spec fn flushed(s: ConsoleInputView, level: nat) -> ConsoleInputView {
    let typed = typed_at(s, level);
    if typed.opener.len() == 0 {
        s
    } else {
        queued(
            with_typed(s, level, TypedView { opener: Seq::empty(), ..typed }),
            InputView {
                event: EventView::Key(
                    KeyEvent {
                        code: KeyCode::Esc,
                        modifiers: KeyModifiers { shift: false, alt: false, control: false },
                        kind: KeyEventKind::Press,
                    },
                ),
                native_key: Some(crate::bytes::utf8(spec_utf16_lossy(typed.opener))),
            },
        )
    }
}

/// After 100 ms without a typed unit, a lone Escape on a level is the key.
pub open spec fn expired(s: ConsoleInputView, level: nat, now: u64) -> ConsoleInputView {
    if typed_at(s, level).opener == seq![27u16] && now >= s.last_key && now - s.last_key >= 100 {
        flushed(s, level)
    } else {
        s
    }
}

fn ends_with_paste_end(t: &Vec<u16>) -> (r: bool)
    ensures
        r == (t@.len() >= 6 && t@.skip(t@.len() - 6) == paste_end()),
{
    let n = t.len();
    if n < 6 {
        return false;
    }
    let r = t[n - 6] == 27 && t[n - 5] == 91 && t[n - 4] == 50 && t[n - 3] == 48 && t[n - 2] == 49
        && t[n - 1] == 126;
    proof {
        let tail = t@.skip(n - 6);
        if r {
            assert(tail =~= paste_end());
        } else if tail == paste_end() {
            assert(tail[0] == t@[n - 6]);
            assert(tail[1] == t@[n - 5]);
            assert(tail[2] == t@[n - 4]);
            assert(tail[3] == t@[n - 3]);
            assert(tail[4] == t@[n - 2]);
            assert(tail[5] == t@[n - 1]);
        }
    }
    r
}

impl Typed {
    fn copy(&self) -> (t: Typed)
        ensures
            t@ == self@,
    {
        let paste = match &self.paste {
            Some(p) => Some(p.clone()),
            None => None,
        };
        Typed { opener: self.opener.clone(), paste }
    }

    fn new() -> (t: Typed)
        ensures
            t@ == (TypedView { opener: Seq::empty(), paste: None }),
    {
        Typed { opener: Vec::new(), paste: None }
    }
}

impl ConsoleInput {
    pub fn new(now: u64) -> (c: ConsoleInput)
        ensures
            c@ == (ConsoleInputView {
                ready: Seq::empty(),
                outer: TypedView { opener: Seq::empty(), paste: None },
                inner: TypedView { opener: Seq::empty(), paste: None },
                last_key: now,
            }),
    {
        let c = ConsoleInput { ready: Vec::new(), outer: Typed::new(), inner: Typed::new(), last_key: now };
        assert(c@.ready =~= Seq::<InputView>::empty());
        c
    }

    fn push_ready(&mut self, input: HostInput)
        ensures
            final(self)@ == queued(old(self)@, input@),
    {
        let ghost before = self.ready@;
        let ghost iv = input@;
        self.ready.push(input);
        assert(self.ready@ == before.push(input));
        assert(inputs_view(self.ready@) =~= inputs_view(before).push(iv));
    }

    fn take_typed(&mut self, level: u8) -> (t: Typed)
        ensures
            t@ == typed_at(old(self)@, level as nat),
            final(self)@ == with_typed(
                old(self)@,
                level as nat,
                TypedView { opener: Seq::empty(), paste: None },
            ),
    {
        if level > 0 {
            let t = self.outer.copy();
            self.outer = Typed::new();
            t
        } else {
            let t = self.inner.copy();
            self.inner = Typed::new();
            t
        }
    }

    fn put_typed(&mut self, level: u8, t: Typed)
        ensures
            final(self)@ == with_typed(old(self)@, level as nat, t@),
    {
        if level > 0 {
            self.outer = t;
        } else {
            self.inner = t;
        }
    }

    fn gather_paste(&mut self, level: u8, typed: Typed, mut text: Vec<u16>, unit: u16, count: u16)
        requires
            typed@.paste is None,
        ensures
            final(self)@ == paste_step(
                with_typed(old(self)@, level as nat, typed@),
                level as nat,
                text@,
                unit,
                if count >= 1 {
                    count as int
                } else {
                    1
                },
            ),
    {
        let n: u16 = if count >= 1 {
            count
        } else {
            1
        };
        let ghost start = text@;
        let mut i: u16 = 0;
        while i < n
            invariant
                i <= n,
                text@ == start + Seq::new(i as nat, |j: int| unit),
            decreases n - i,
        {
            text.push(unit);
            i = i + 1;
            assert(text@ =~= start + Seq::new(i as nat, |j: int| unit));
        }
        if ends_with_paste_end(&text) {
            let keep = text.len() - 6;
            text.truncate(keep);
            let pasted = string_from_utf16_lossy(text.as_slice());
            self.put_typed(level, typed);
            self.push_ready(HostInput { event: HostEvent::Paste(pasted), native_key: None });
        } else {
            let mut typed = typed;
            typed.paste = Some(text);
            self.put_typed(level, typed);
        }
    }

    /// Takes one key record read from the console at time `now`
    /// (milliseconds).
    pub fn accept_key(&mut self, key: KeyRecord, now: u64)
        ensures
            final(self)@ == accept_step(old(self)@, key, now),
    {
        self.accept_record(key, now, 1);
    }

    fn accept_record(&mut self, key: KeyRecord, now: u64, level: u8)
        ensures
            final(self)@ == record_step(old(self)@, key, now, level as nat),
        decreases level, 1nat,
    {
        let unit = key.unicode_char;
        let alt_code = key.virtual_key_code == 18 && key.key_down == 0 && unit != 0;
        if key.key_down == 0 && !alt_code {
            return;
        }
        if 16 <= key.virtual_key_code && key.virtual_key_code <= 18 && unit == 0 {
            return;
        }
        if key.virtual_key_code != 0 {
            self.push_ready(native_key_input(key));
            return;
        }
        self.last_key = now;
        let mut typed = self.take_typed(level);
        let pending = typed.paste.take();
        match pending {
            Some(text) => {
                self.gather_paste(level, typed, text, unit, key.repeat_count);
                return;
            },
            None => {},
        }
        if typed.opener.len() == 0 {
            if unit == 27 {
                typed.opener.push(unit);
                assert(typed@.opener =~= seq![unit]);
                self.put_typed(level, typed);
            } else {
                self.put_typed(level, typed);
                self.push_ready(native_key_input(key));
            }
            return;
        }
        typed.opener.push(unit);
        let complete = if typed.opener.len() > 1 && typed.opener[1] == 91 {
            typed.opener.len() > 2 && 64 <= unit && unit <= 126
        } else {
            typed.opener.len() > 2 || unit != 79
        };
        if !(complete || typed.opener.len() >= 128) {
            self.put_typed(level, typed);
            return;
        }
        let sequence = typed.opener.clone();
        typed.opener = Vec::new();
        assert(typed@.opener =~= Seq::<u16>::empty());
        self.put_typed(level, typed);
        let d = decode_console_sequence(sequence.as_slice());
        match d {
            ConsoleSequence::Key(k) => {
                if level > 0 {
                    self.accept_record(k, now, level - 1);
                } else if k.key_down != 0 && !(16 <= k.virtual_key_code && k.virtual_key_code <= 18
                    && k.unicode_char == 0) {
                    self.push_ready(native_key_input(k));
                }
            },
            ConsoleSequence::Input(i) => self.push_ready(i),
            ConsoleSequence::Paste => {
                let mut t = self.take_typed(level);
                t.paste = Some(Vec::new());
                self.put_typed(level, t);
            },
        }
    }

    fn flush_level(&mut self, level: u8)
        ensures
            final(self)@ == flushed(old(self)@, level as nat),
    {
        let typed = self.take_typed(level);
        if typed.opener.len() == 0 {
            self.put_typed(level, typed);
            return;
        }
        let text = string_from_utf16_lossy(typed.opener.as_slice());
        let chars = crate::text::chars_of(text.as_str());
        let mut bytes: Vec<u8> = Vec::new();
        crate::bytes::push_chars(&mut bytes, chars.as_slice());
        let mut typed = typed;
        typed.opener = Vec::new();
        self.put_typed(level, typed);
        self.push_ready(
            HostInput {
                event: HostEvent::Key(KeyEvent::new(KeyCode::Esc, KeyModifiers::none())),
                native_key: Some(bytes),
            },
        );
    }

    /// Gives up on pending escape sequences: each is sent as an Escape key.
    pub fn flush_opener(&mut self)
        ensures
            final(self)@ == flushed(flushed(old(self)@, 1), 0),
    {
        self.flush_level(1);
        self.flush_level(0);
    }

    fn expire_level(&mut self, level: u8, now: u64)
        ensures
            final(self)@ == expired(old(self)@, level as nat, now),
    {
        let typed = self.take_typed(level);
        let lone = typed.opener.len() == 1 && typed.opener[0] == 27;
        assert(lone == (typed@.opener == seq![27u16])) by {
            if lone {
                assert(typed@.opener =~= seq![27u16]);
            }
        };
        self.put_typed(level, typed);
        assert(self@ =~= old(self)@);
        if lone && now >= self.last_key && now - self.last_key >= 100 {
            self.flush_level(level);
        }
    }

    /// A lone Escape is ambiguous with an Escape key press: after 100 ms
    /// without another unit it is taken as the key. A partial CSI waits.
    pub fn expire(&mut self, now: u64)
        ensures
            final(self)@ == expired(expired(old(self)@, 1, now), 0, now),
    {
        self.expire_level(1, now);
        self.expire_level(0, now);
    }

    /// The oldest input waiting, if any.
    pub fn pop(&mut self) -> (r: Option<HostInput>)
        ensures
            old(self)@.ready.len() == 0 ==> r is None && final(self)@ == old(self)@,
            old(self)@.ready.len() > 0 ==> (r matches Some(i) && i@ == old(self)@.ready[0]
                && final(self)@ == (ConsoleInputView { ready: old(self)@.ready.drop_first(), ..old(self)@ })),
    {
        if self.ready.len() == 0 {
            return None;
        }
        let ghost before = self.ready@;
        let i = self.ready.remove(0);
        assert(inputs_view(before)[0] == i@);
        assert(inputs_view(self.ready@) =~= inputs_view(before).drop_first());
        Some(i)
    }
}

/// A console paste collects typed units until they end with `ESC [ 201 ~`;
/// then the text before that marker is delivered once, as a paste event
/// with no key record, and collection stops. Until then nothing is queued.
pub proof fn lemma_paste_collects(s: ConsoleInputView, level: nat, text: Seq<u16>, unit: u16, n: int)
    requires
        n >= 0,
    ensures
        ({
            let grown = text + Seq::new(n as nat, |i: int| unit);
            let next = paste_step(s, level, text, unit, n);
            let marker = seq![27u16, 91u16, 50u16, 48u16, 49u16, 126u16];
            &&& grown.len() >= 6 && grown.subrange(grown.len() - 6, grown.len() as int) == marker ==> {
                &&& next.ready == s.ready.push(
                    InputView {
                        event: EventView::Paste(spec_utf16_lossy(grown.subrange(0, grown.len() - 6))),
                        native_key: None,
                    },
                )
                &&& typed_at(next, level).paste is None
                &&& typed_at(next, level).opener == typed_at(s, level).opener
            }
            &&& !(grown.len() >= 6 && grown.subrange(grown.len() - 6, grown.len() as int) == marker) ==> {
                &&& next.ready == s.ready
                &&& typed_at(next, level).paste == Some(grown)
                &&& typed_at(next, level).opener == typed_at(s, level).opener
            }
        }),
{
    let grown = text + Seq::new(n as nat, |i: int| unit);
    if grown.len() >= 6 {
        assert(grown.skip(grown.len() - 6) =~= grown.subrange(grown.len() - 6, grown.len() as int));
        assert(grown.take(grown.len() - 6) =~= grown.subrange(0, grown.len() - 6));
    }
}

} // verus!
