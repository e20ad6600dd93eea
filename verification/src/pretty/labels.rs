//! Speaker labels for the margin: which rows open a message by the user or by
//! the agent. Native message markers are heuristics; unknown rows keep an
//! empty margin.
use vstd::prelude::*;
use crate::display::cell::{Cell, CellView};
use crate::display::row::cell_views;
use crate::pretty::detect::{fence_mark, rows_view};
use crate::pretty::rows::{
    blank,
    chars_blank,
    chars_start_with,
    count_leading,
    is_whitespace,
    leading,
    part,
    row_chars,
    spaced_text,
    starts_with,
    trim,
    trim_end,
    trim_end_in,
    trim_start,
    trim_start_in,
};
use crate::text::{chars_eq, chars_of, string_from_chars};

verus! {

pub open spec fn is_digit(c: char) -> bool {
    '0' <= c && c <= '9'
}

pub open spec fn all_digits(t: Seq<char>) -> bool {
    forall|i: int| 0 <= i < t.len() ==> is_digit(#[trigger] t[i])
}

/// The number written by decimal digits.
pub open spec fn digits_value(t: Seq<char>) -> int
    decreases t.len(),
{
    if t.len() == 0 {
        0
    } else {
        digits_value(t.drop_last()) * 10 + (t.last() as u32 - 48)
    }
}

pub open spec fn ends_with(t: Seq<char>, p: Seq<char>) -> bool {
    p.len() <= t.len() && t.skip(t.len() - p.len()) == p
}

/// A 12-hour clock ends in ` AM` or ` PM`.
pub open spec fn meridiem(t: Seq<char>) -> bool {
    ends_with(t, seq![' ', 'A', 'M']) || ends_with(t, seq![' ', 'P', 'M'])
}

/// The first `:` from `k` on.
pub open spec fn first_colon(t: Seq<char>, k: int) -> Option<int>
    decreases t.len() - k,
{
    if k < 0 || k >= t.len() {
        None
    } else if t[k] == ':' {
        Some(k)
    } else {
        first_colon(t, k + 1)
    }
}

/// A clock: one or two hour digits, `:`, two minute digits below 60; a 24-hour
/// hour below 24, or a 12-hour hour from 1 to 12 followed by ` AM` or ` PM`.
pub open spec fn clock(c: Seq<char>) -> bool {
    let twelve = meridiem(c);
    let core = if twelve {
        c.take(c.len() - 3)
    } else {
        c
    };
    match first_colon(core, 0) {
        None => false,
        Some(k) => {
            let h = core.take(k);
            let m = core.skip(k + 1);
            clock_parts(h, m, twelve)
        },
    }
}

/// The last place before `n` where two spaces stand together.
pub open spec fn last_gap(t: Seq<char>, n: int) -> Option<int>
    decreases n,
{
    if n < 2 {
        None
    } else if t[n - 2] == ' ' && t[n - 1] == ' ' {
        Some(n - 2)
    } else {
        last_gap(t, n - 1)
    }
}

/// Grok's native transcript puts a clock at the right edge of message starts:
/// after the last double space, with text before it.
pub open spec fn timestamped(t: Seq<char>) -> bool {
    let u = trim_end(t);
    match last_gap(u, u.len() as int) {
        None => false,
        Some(p) => !blank(u.take(p)) && clock(trim(u.skip(p + 2))),
    }
}

pub enum Speaker {
    User,
    Agent,
    Unknown,
}

pub open spec fn you_label() -> Seq<char> {
    seq!['y', 'o', 'u', ':']
}

pub open spec fn grok_name() -> Seq<char> {
    seq!['g', 'r', 'o', 'k']
}

pub open spec fn row_line(rows: Seq<Seq<CellView>>, i: int) -> Seq<char> {
    spaced_text(rows[i])
}

pub open spec fn fence_line(rows: Seq<Seq<CellView>>, i: int) -> bool {
    starts_with(trim_start(row_line(rows, i)), fence_mark())
}

/// Whether the rows before `i` leave a code fence open.
pub open spec fn fenced_before(rows: Seq<Seq<CellView>>, i: int) -> bool
    decreases i,
{
    if i <= 0 {
        false
    } else {
        fenced_before(rows, i - 1) != fence_line(rows, i - 1)
    }
}

/// In Grok's minimal layout a reply starts flush left after a blank row, or
/// where a block of `┃` lines ends.
pub open spec fn reply_start(rows: Seq<Seq<CellView>>, i: int) -> bool {
    let t = trim_start(row_line(rows, i));
    let prev = trim_start(row_line(rows, i - 1));
    &&& i > 0
    &&& leading(row_line(rows, i), ' ') == 0
    &&& !blank(row_line(rows, i))
    &&& (blank(row_line(rows, i - 1)) || (starts_with(prev, seq!['\u{2503}']) && !starts_with(
        t,
        seq!['\u{2503}'],
    )))
}

/// Who opens a message on row `i`, outside code.
pub open spec fn speaker(rows: Seq<Seq<CellView>>, grok: bool, i: int) -> Speaker {
    let text = row_line(rows, i);
    let t = trim_start(text);
    let indent = leading(text, ' ');
    if (indent <= 2 && starts_with(t, seq!['\u{203a}', ' '])) || (grok && (indent <= 2 || indent
        == 5) && starts_with(t, seq!['\u{276f}', ' '])) || (grok && indent == 2 && starts_with(
        t,
        seq!['\u{2502}', ' ', '\u{276f}', ' '],
    )) {
        Speaker::User
    } else if (indent <= 2 && (starts_with(t, seq!['\u{2022}', ' ']) || starts_with(
        t,
        seq!['\u{25cf}', ' '],
    ))) || (grok && timestamped(t)) || (grok && reply_start(rows, i)) {
        Speaker::Agent
    } else {
        Speaker::Unknown
    }
}

/// The label of row `i`: `you:` or the agent's name and `:`; none without an
/// agent, on fence lines and inside code.
pub open spec fn spec_label(rows: Seq<Seq<CellView>>, agent: Option<Seq<char>>, i: int) -> Option<
    Seq<char>,
> {
    match agent {
        None => None,
        Some(a) => if fence_line(rows, i) || fenced_before(rows, i) {
            None
        } else {
            match speaker(rows, a == grok_name(), i) {
                Speaker::User => Some(you_label()),
                Speaker::Agent => Some(a.push(':')),
                Speaker::Unknown => None,
            }
        },
    }
}

pub open spec fn label_views(labels: Seq<Option<String>>) -> Seq<Option<Seq<char>>> {
    labels.map_values(
        |l: Option<String>|
            match l {
                Some(s) => Some(s@),
                None => None,
            },
    )
}

pub open spec fn agent_view(agent: Option<&str>) -> Option<Seq<char>> {
    match agent {
        Some(a) => Some(a@),
        None => None,
    }
}

fn digit_value(c: char) -> (v: u32)
    requires
        is_digit(c),
    ensures
        v == c as u32 - 48,
        v <= 9,
{
    c as u32 - 48
}

/// The clock test once the hour and minute are split off.
pub open spec fn clock_parts(h: Seq<char>, m: Seq<char>, twelve: bool) -> bool {
    &&& 1 <= h.len() <= 2
    &&& m.len() == 2
    &&& all_digits(h)
    &&& all_digits(m)
    &&& digits_value(m) < 60
    &&& if twelve {
        1 <= digits_value(h) <= 12
    } else {
        digits_value(h) < 24
    }
}

proof fn lemma_two_digits(m: Seq<char>)
    requires
        m.len() == 2,
    ensures
        digits_value(m) == (m[0] as u32 - 48) * 10 + (m[1] as u32 - 48),
        digits_value(m.take(1)) == m[0] as u32 - 48,
{
    let one = m.take(1);
    assert(m.drop_last() =~= one);
    assert(one.drop_last() =~= Seq::<char>::empty());
    assert(digits_value(one) == digits_value(one.drop_last()) * 10 + (one.last() as u32 - 48));
}

proof fn lemma_one_digit(m: Seq<char>)
    requires
        m.len() == 1,
    ensures
        digits_value(m) == m[0] as u32 - 48,
{
    assert(m.drop_last() =~= Seq::<char>::empty());
    assert(digits_value(m) == digits_value(m.drop_last()) * 10 + (m.last() as u32 - 48));
}

fn clock_parts_exec(h: &Vec<char>, m: &Vec<char>, twelve: bool) -> (r: bool)
    ensures
        r == clock_parts(h@, m@, twelve),
{
    if h.len() < 1 || h.len() > 2 || m.len() != 2 {
        return false;
    }
    let mut i: usize = 0;
    while i < h.len()
        invariant
            i <= h@.len(),
            forall|j: int| 0 <= j < i ==> is_digit(#[trigger] h@[j]),
        decreases h@.len() - i,
    {
        if !('0' <= h[i] && h[i] <= '9') {
            assert(!is_digit(h@[i as int]));
            return false;
        }
        i = i + 1;
    }
    if !('0' <= m[0] && m[0] <= '9' && '0' <= m[1] && m[1] <= '9') {
        assert(!is_digit(m@[0]) || !is_digit(m@[1]));
        return false;
    }
    assert(all_digits(m@));
    let minute = digit_value(m[0]) * 10 + digit_value(m[1]);
    proof {
        lemma_two_digits(m@);
    }
    let hour = if h.len() == 1 {
        proof {
            lemma_one_digit(h@);
        }
        digit_value(h[0])
    } else {
        proof {
            lemma_two_digits(h@);
        }
        digit_value(h[0]) * 10 + digit_value(h[1])
    };
    minute < 60 && if twelve {
        1 <= hour && hour <= 12
    } else {
        hour < 24
    }
}

fn clock_exec(c: &Vec<char>) -> (r: bool)
    ensures
        r == clock(c@),
{
    let len = c.len();
    let am = len >= 3 && chars_start_with(c.as_slice(), len - 3, &[' ', 'A', 'M']);
    let pm = len >= 3 && chars_start_with(c.as_slice(), len - 3, &[' ', 'P', 'M']);
    let twelve = am || pm;
    proof {
        if len >= 3 {
            assert(c@.skip(len - 3) =~= c@.skip(len - 3).take(3));
        }
        assert(am == ends_with(c@, seq![' ', 'A', 'M']));
        assert(pm == ends_with(c@, seq![' ', 'P', 'M']));
    }
    let core_len = if twelve {
        len - 3
    } else {
        len
    };
    let core = part(c.as_slice(), 0, core_len);
    let ghost core_spec = if meridiem(c@) {
        c@.take(c@.len() - 3)
    } else {
        c@
    };
    assert(core@ =~= core_spec);
    let mut k: usize = 0;
    while k < core.len() && core[k] != ':'
        invariant
            k <= core@.len(),
            first_colon(core@, 0) == first_colon(core@, k as int),
        decreases core@.len() - k,
    {
        k = k + 1;
    }
    if k == core.len() {
        return false;
    }
    assert(first_colon(core@, 0) == Some(k as int));
    let h = part(core.as_slice(), 0, k);
    let m = part(core.as_slice(), k + 1, core.len());
    assert(h@ =~= core@.take(k as int));
    assert(m@ =~= core@.skip(k + 1));
    clock_parts_exec(&h, &m, twelve)
}

/// The clock part after the gap at `p`, trimmed, is a clock.
fn clock_after(u: &Vec<char>, p: usize) -> (r: bool)
    requires
        p + 2 <= u@.len(),
    ensures
        r == clock(trim(u@.skip(p + 2))),
{
    let n: usize = u.len();
    let rest = part(u.as_slice(), p + 2, n);
    assert(rest@ =~= u@.skip(p + 2));
    assert(rest@.subrange(0, rest@.len() as int) =~= rest@);
    let a = trim_start_in(rest.as_slice(), 0, rest.len());
    let b = trim_end_in(rest.as_slice(), a, rest.len());
    let c = part(rest.as_slice(), a, b);
    clock_exec(&c)
}

fn timestamped_exec(t: &Vec<char>) -> (r: bool)
    ensures
        r == timestamped(t@),
{
    let e = trim_end_in(t.as_slice(), 0, t.len());
    let u = part(t.as_slice(), 0, e);
    assert(t@.subrange(0, t@.len() as int) =~= t@);
    assert(u@ == trim_end(t@));
    let mut n: usize = u.len();
    while n >= 2 && !(u[n - 2] == ' ' && u[n - 1] == ' ')
        invariant
            n <= u@.len(),
            last_gap(u@, u@.len() as int) == last_gap(u@, n as int),
        decreases n,
    {
        n = n - 1;
    }
    if n < 2 {
        return false;
    }
    let p = n - 2;
    assert(last_gap(u@, u@.len() as int) == Some(p as int));
    let body = part(u.as_slice(), 0, p);
    assert(body@ =~= u@.take(p as int));
    assert(body@.skip(0) =~= body@);
    if chars_blank(body.as_slice(), 0) {
        return false;
    }
    clock_after(&u, p)
}

fn starts(t: &Vec<char>, k: usize, p: &[char]) -> (r: bool)
    requires
        k <= t@.len(),
    ensures
        r == starts_with(t@.skip(k as int), p@),
{
    chars_start_with(t.as_slice(), k, p)
}

/// Whether row `i` starts a reply in Grok's minimal layout.
fn reply_start_exec(rows: &[Vec<Cell>], i: usize) -> (r: bool)
    requires
        i < rows@.len(),
    ensures
        r == reply_start(rows_view(rows@), i as int),
{
    if i == 0 {
        return false;
    }
    let ghost rv = rows_view(rows@);
    assert(rv[i as int] == cell_views(rows@[i as int]@));
    assert(rv[i - 1] == cell_views(rows@[i - 1]@));
    let text = row_chars(rows[i].as_slice(), true);
    let prev = row_chars(rows[i - 1].as_slice(), true);
    assert(text@ == row_line(rv, i as int));
    assert(prev@ == row_line(rv, i - 1));
    assert(text@.skip(0) =~= text@);
    assert(prev@.skip(0) =~= prev@);
    assert(text@.subrange(0, text@.len() as int) =~= text@);
    assert(prev@.subrange(0, prev@.len() as int) =~= prev@);
    let k = trim_start_in(text.as_slice(), 0, text.len());
    let pk = trim_start_in(prev.as_slice(), 0, prev.len());
    let indent = count_leading(text.as_slice(), 0, ' ');
    assert(text@.skip(k as int) =~= text@.subrange(k as int, text@.len() as int));
    assert(prev@.skip(pk as int) =~= prev@.subrange(pk as int, prev@.len() as int));
    if indent != 0 || chars_blank(text.as_slice(), 0) {
        return false;
    }
    let pb = chars_blank(prev.as_slice(), 0);
    assert(pb == blank(row_line(rv, i - 1)));
    let bar = ['\u{2503}'];
    assert(bar@ =~= seq!['\u{2503}']);
    assert(trim_start(row_line(rv, i - 1)) == prev@.skip(pk as int));
    let ps = starts(&prev, pk, &bar);
    assert(ps == starts_with(trim_start(row_line(rv, i - 1)), seq!['\u{2503}']));
    let ts = starts(&text, k, &bar);
    assert(ts == starts_with(trim_start(row_line(rv, i as int)), seq!['\u{2503}']));
    pb || (ps && !ts)
}

fn speaker_exec(rows: &[Vec<Cell>], grok: bool, i: usize) -> (s: Speaker)
    requires
        i < rows@.len(),
    ensures
        s == speaker(rows_view(rows@), grok, i as int),
{
    let ghost rv = rows_view(rows@);
    assert(rv[i as int] == cell_views(rows@[i as int]@));
    let text = row_chars(rows[i].as_slice(), true);
    assert(text@.skip(0) =~= text@);
    assert(text@.subrange(0, text@.len() as int) =~= text@);
    let k = trim_start_in(text.as_slice(), 0, text.len());
    let indent = count_leading(text.as_slice(), 0, ' ');
    let user = (indent <= 2 && starts(&text, k, &['\u{203a}', ' '])) || (grok && (indent <= 2
        || indent == 5) && starts(&text, k, &['\u{276f}', ' '])) || (grok && indent == 2 && starts(
        &text,
        k,
        &['\u{2502}', ' ', '\u{276f}', ' '],
    ));
    if user {
        return Speaker::User;
    }
    let bullet = indent <= 2 && (starts(&text, k, &['\u{2022}', ' ']) || starts(
        &text,
        k,
        &['\u{25cf}', ' '],
    ));
    if bullet {
        return Speaker::Agent;
    }
    if grok {
        let trimmed = part(text.as_slice(), k, text.len());
        assert(trimmed@ =~= text@.skip(k as int));
        if timestamped_exec(&trimmed) || reply_start_exec(rows, i) {
            return Speaker::Agent;
        }
    }
    Speaker::Unknown
}

/// Whether row `i` is a code fence line.
fn fence_line_exec(rows: &[Vec<Cell>], i: usize) -> (r: bool)
    requires
        i < rows@.len(),
    ensures
        r == fence_line(rows_view(rows@), i as int),
{
    let ghost rv = rows_view(rows@);
    assert(rv[i as int] == cell_views(rows@[i as int]@));
    let text = row_chars(rows[i].as_slice(), true);
    assert(text@.subrange(0, text@.len() as int) =~= text@);
    let k = trim_start_in(text.as_slice(), 0, text.len());
    let r = starts(&text, k, &['`', '`', '`']);
    assert(seq!['`', '`', '`'] =~= fence_mark());
    r
}

/// The margin label of every row: `you:` where the user's message starts, the
/// agent's name and `:` where a reply starts, and nothing elsewhere, inside
/// code fences or without an agent.
pub fn speaker_labels(rows: &[Vec<Cell>], agent: Option<&str>) -> (labels: Vec<Option<String>>)
    ensures
        label_views(labels@) == Seq::new(
            rows@.len(),
            |i: int| spec_label(rows_view(rows@), agent_view(agent), i),
        ),
{
    let ghost rv = rows_view(rows@);
    let ghost goal = Seq::new(rows@.len(), |i: int| spec_label(rv, agent_view(agent), i));
    let mut labels: Vec<Option<String>> = Vec::new();
    let (grok, name) = match agent {
        Some(a) => {
            let name = chars_of(a);
            (chars_eq(name.as_slice(), &['g', 'r', 'o', 'k']), name)
        },
        None => (false, Vec::new()),
    };
    assert(agent is Some ==> (grok == (agent_view(agent)->0 == grok_name()))) by {
        assert(seq!['g', 'r', 'o', 'k'] =~= grok_name());
    };
    let mut fenced = false;
    let mut i: usize = 0;
    assert(label_views(labels@) =~= goal.take(0));
    while i < rows.len()
        invariant
            i <= rows@.len(),
            rv == rows_view(rows@),
            goal == Seq::new(rows@.len(), |i: int| spec_label(rv, agent_view(agent), i)),
            agent is Some ==> name@ == agent_view(agent)->0,
            agent is Some ==> (grok == (agent_view(agent)->0 == grok_name())),
            agent is Some ==> fenced == fenced_before(rv, i as int),
            labels@.len() == i,
            label_views(labels@) == goal.take(i as int),
        decreases rows@.len() - i,
    {
        let label = if agent.is_none() {
            None
        } else if fence_line_exec(rows, i) {
            fenced = !fenced;
            None
        } else if fenced {
            None
        } else {
            match speaker_exec(rows, grok, i) {
                Speaker::User => Some(string_from_chars(&['y', 'o', 'u', ':'])),
                Speaker::Agent => {
                    let mut t = name.clone();
                    t.push(':');
                    Some(string_from_chars(t.as_slice()))
                },
                Speaker::Unknown => None,
            }
        };
        proof {
            if label is Some {
                assert(label->0@ =~= goal[i as int]->0);
            }
        }
        labels.push(label);
        assert(label_views(labels@) =~= goal.take(i + 1));
        i = i + 1;
    }
    assert(label_views(labels@) =~= goal);
    labels
}

/// Labels are given only with an agent, never on code fence lines, inside
/// code or on rows without a known marker, and the only labels are `you:` and
/// the agent's name followed by `:`.
pub proof fn lemma_label_kinds(rows: Seq<Seq<CellView>>, agent: Option<Seq<char>>, i: int)
    ensures
        agent is None ==> spec_label(rows, agent, i) is None,
        fence_line(rows, i) || fenced_before(rows, i) ==> spec_label(rows, agent, i) is None,
        (agent matches Some(a) && speaker(rows, a == grok_name(), i) is Unknown) ==> spec_label(
            rows,
            agent,
            i,
        ) is None,
        spec_label(rows, agent, i) matches Some(t) ==> t == you_label() || (agent matches Some(a)
            && t == a.push(':')),
{
}

/// The value of a decimal digit character.
pub open spec fn digit(c: char) -> int {
    c as u32 - 48
}

/// Clocks as transcripts print them: `H:MM` or `HH:MM` with minutes below 60,
/// the hour below 24; with ` AM` or ` PM` after it, the hour from 1 to 12.
pub proof fn lemma_clocks(a: char, b: char, c: char, d: char, p: char)
    requires
        is_digit(a),
        is_digit(b),
        is_digit(c),
        is_digit(d),
        p == 'A' || p == 'P',
    ensures
        clock(seq![a, b, ':', c, d]) <==> (10 * digit(a) + digit(b) < 24 && 10 * digit(c) + digit(d) < 60),
        clock(seq![a, ':', c, d]) <==> 10 * digit(c) + digit(d) < 60,
        clock(seq![a, b, ':', c, d, ' ', p, 'M']) <==> (1 <= 10 * digit(a) + digit(b) <= 12 && 10 * digit(c)
            + digit(d) < 60),
        clock(seq![a, ':', c, d, ' ', p, 'M']) <==> (1 <= digit(a) && 10 * digit(c) + digit(d) < 60),
{
    let t1 = seq![a, b, ':', c, d];
    let t2 = seq![a, ':', c, d];
    let t3 = seq![a, b, ':', c, d, ' ', p, 'M'];
    let t4 = seq![a, ':', c, d, ' ', p, 'M'];
    let m = seq![c, d];
    lemma_two_digits(m);
    lemma_two_digits(seq![a, b]);
    let one = seq![a];
    assert(one.drop_last() =~= Seq::<char>::empty());
    assert(one.last() == a);
    assert(digits_value(Seq::<char>::empty()) == 0);
    assert(digits_value(one) == digits_value(one.drop_last()) * 10 + (one.last() as u32 - 48));
    assert(digits_value(one) == digit(a));
    assert(!meridiem(t1)) by {
        assert(t1.skip(2) =~= seq![':', c, d]);
    }
    assert(!meridiem(t2)) by {
        assert(t2.skip(1) =~= seq![':', c, d]);
    }
    assert(meridiem(t3)) by {
        assert(t3.skip(5) =~= seq![' ', p, 'M']);
    }
    assert(meridiem(t4)) by {
        assert(t4.skip(4) =~= seq![' ', p, 'M']);
    }
    assert(t3.take(5) =~= t1);
    assert(t4.take(4) =~= t2);
    assert(first_colon(t1, 2) == Some(2int));
    assert(first_colon(t1, 1) == Some(2int));
    assert(first_colon(t1, 0) == Some(2int));
    assert(first_colon(t2, 1) == Some(1int));
    assert(first_colon(t2, 0) == Some(1int));
    assert(t1.take(2) =~= seq![a, b]);
    assert(t1.skip(3) =~= m);
    assert(t2.take(1) =~= one);
    assert(t2.skip(2) =~= m);
    assert(all_digits(m) && all_digits(one) && all_digits(seq![a, b]));
}

/// `k` spaces.
pub open spec fn spaces(k: nat) -> Seq<char> {
    Seq::new(k, |i: int| ' ')
}

proof fn lemma_indented(k: nat, x: Seq<char>)
    requires
        x.len() > 0,
        !is_whitespace(x[0]),
    ensures
        trim_start(spaces(k) + x) == x,
        leading(spaces(k) + x, ' ') == k,
    decreases k,
{
    if k > 0 {
        lemma_indented((k - 1) as nat, x);
        assert((spaces(k) + x).drop_first() =~= spaces((k - 1) as nat) + x);
        assert((spaces(k) + x)[0] == ' ');
    } else {
        assert(spaces(k) + x =~= x);
    }
}

/// Speaker labels, outside code fences and with an agent named: a line that
/// opens with `› ` after at most two spaces is the user's and gets `you:`;
/// one that opens with `• ` or `● ` after at most two spaces is the agent's
/// and gets its name and `:`. Without an agent no row is labelled.
pub proof fn lemma_speaker_labels(rows: Seq<Seq<CellView>>, a: Seq<char>, i: int, k: nat, rest: Seq<char>)
    requires
        k <= 2,
        !fence_line(rows, i),
        !fenced_before(rows, i),
    ensures
        row_line(rows, i) == spaces(k) + seq!['\u{203a}', ' '] + rest ==> spec_label(rows, Some(a), i) == Some(
            seq!['y', 'o', 'u', ':'],
        ),
        row_line(rows, i) == spaces(k) + seq!['\u{2022}', ' '] + rest ==> spec_label(rows, Some(a), i) == Some(
            a.push(':'),
        ),
        row_line(rows, i) == spaces(k) + seq!['\u{25cf}', ' '] + rest ==> spec_label(rows, Some(a), i) == Some(
            a.push(':'),
        ),
        spec_label(rows, None, i) is None,
{
    let text = row_line(rows, i);
    if text == spaces(k) + seq!['\u{203a}', ' '] + rest {
        let x = seq!['\u{203a}', ' '] + rest;
        assert(text =~= spaces(k) + x);
        lemma_indented(k, x);
        assert(x.take(2) =~= seq!['\u{203a}', ' ']);
    }
    if text == spaces(k) + seq!['\u{2022}', ' '] + rest {
        let x = seq!['\u{2022}', ' '] + rest;
        assert(text =~= spaces(k) + x);
        lemma_indented(k, x);
        assert(x.take(2) =~= seq!['\u{2022}', ' ']);
        assert(!starts_with(x, seq!['\u{203a}', ' ']));
        assert(!starts_with(x, seq!['\u{276f}', ' ']));
        assert(!starts_with(x, seq!['\u{2502}', ' ', '\u{276f}', ' ']));
    }
    if text == spaces(k) + seq!['\u{25cf}', ' '] + rest {
        let x = seq!['\u{25cf}', ' '] + rest;
        assert(text =~= spaces(k) + x);
        lemma_indented(k, x);
        assert(x.take(2) =~= seq!['\u{25cf}', ' ']);
        assert(!starts_with(x, seq!['\u{203a}', ' ']));
        assert(!starts_with(x, seq!['\u{276f}', ' ']));
        assert(!starts_with(x, seq!['\u{2502}', ' ', '\u{276f}', ' ']));
    }
}

} // verus!
