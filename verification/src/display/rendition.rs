//! How a terminal reads a select-graphic-rendition sequence back: the
//! parameters of `CSI … m` are split at `;`, read as decimal numbers and
//! applied in order. Every style the renderer writes reads back as itself,
//! colours included.
use vstd::prelude::*;
use crate::bytes::decimal;
use crate::display::cell::{attr, attrs, colour_params, default_style, sgr, Color, Style};

verus! {

/// The value of a string of decimal digits.
pub open spec fn digits_value(b: Seq<u8>) -> nat
    decreases b.len(),
{
    if b.len() == 0 {
        0
    } else {
        digits_value(b.drop_last()) * 10 + ((b.last() as int - 48) as nat)
    }
}

/// The fields of a parameter string, split at each `;`.
pub open spec fn fields(b: Seq<u8>) -> Seq<Seq<u8>>
    decreases b.len(),
{
    if b.len() == 0 {
        seq![Seq::empty()]
    } else {
        let f = fields(b.drop_last());
        if b.last() == 59u8 {
            f.push(Seq::empty())
        } else {
            f.update(f.len() - 1, f.last().push(b.last()))
        }
    }
}

/// The numeric parameters of a parameter string.
pub open spec fn params(b: Seq<u8>) -> Seq<nat> {
    fields(b).map_values(|f: Seq<u8>| digits_value(f))
}

/// The style after applying SGR parameters in order: 0 resets, 1 bold,
/// 2 dim, 3 italic, 4 underline, 7 inverse; 38 and 48 select the foreground
/// and background, as `5 ; index` or `2 ; red ; green ; blue`; other
/// parameters change nothing.
pub open spec fn apply_params(st: Style, ps: Seq<nat>) -> Style
    decreases ps.len(),
{
    if ps.len() == 0 {
        st
    } else {
        let p = ps[0];
        let rest = ps.drop_first();
        if p == 0 {
            apply_params(default_style(), rest)
        } else if p == 1 {
            apply_params(Style { bold: true, ..st }, rest)
        } else if p == 2 {
            apply_params(Style { dim: true, ..st }, rest)
        } else if p == 3 {
            apply_params(Style { italic: true, ..st }, rest)
        } else if p == 4 {
            apply_params(Style { underline: true, ..st }, rest)
        } else if p == 7 {
            apply_params(Style { inverse: true, ..st }, rest)
        } else if (p == 38 || p == 48) && ps.len() >= 3 && ps[1] == 5 {
            let c = Color::Idx(ps[2] as u8);
            apply_params(
                if p == 38 {
                    Style { fg: c, ..st }
                } else {
                    Style { bg: c, ..st }
                },
                ps.subrange(3, ps.len() as int),
            )
        } else if (p == 38 || p == 48) && ps.len() >= 5 && ps[1] == 2 {
            let c = Color::Rgb(ps[2] as u8, ps[3] as u8, ps[4] as u8);
            apply_params(
                if p == 38 {
                    Style { fg: c, ..st }
                } else {
                    Style { bg: c, ..st }
                },
                ps.subrange(5, ps.len() as int),
            )
        } else {
            apply_params(st, rest)
        }
    }
}

/// What a terminal in style `from` makes of the bytes `CSI params m`, or
/// `None` when they are not such a sequence.
pub open spec fn read_rendition(b: Seq<u8>, from: Style) -> Option<Style> {
    if b.len() >= 3 && b[0] == 27u8 && b[1] == 91u8 && b.last() == 109u8 {
        Some(apply_params(from, params(b.subrange(2, b.len() - 1))))
    } else {
        None
    }
}

/// `; p` for each parameter.
#[verifier::opaque]
pub open spec fn tail(ps: Seq<nat>) -> Seq<u8>
    decreases ps.len(),
{
    if ps.len() == 0 {
        Seq::empty()
    } else {
        tail(ps.drop_last()) + seq![59u8] + decimal(ps.last())
    }
}

proof fn lemma_decimal_reads(n: nat)
    ensures
        digits_value(decimal(n)) == n,
        decimal(n).len() >= 1,
        forall|i: int| 0 <= i < decimal(n).len() ==> #[trigger] decimal(n)[i] != 59u8,
    decreases n,
{
    if n >= 10 {
        lemma_decimal_reads(n / 10);
        let d = decimal(n / 10);
        assert(decimal(n) == d.push((48 + n % 10) as u8));
        assert(decimal(n).drop_last() =~= d);
        assert(decimal(n).last() == (48 + n % 10) as u8);
        assert(((48 + n % 10) as u8) as int - 48 == n % 10);
        assert((n / 10) * 10 + n % 10 == n);
        assert forall|i: int| 0 <= i < decimal(n).len() implies #[trigger] decimal(n)[i] != 59u8 by {
            if i < d.len() {
                assert(decimal(n)[i] == d[i]);
            }
        }
    } else {
        assert(decimal(n).drop_last() =~= Seq::<u8>::empty());
        assert(decimal(n).last() == (48 + n) as u8);
        assert(digits_value(Seq::<u8>::empty()) == 0);
    }
}

proof fn lemma_fields_len(b: Seq<u8>)
    ensures
        fields(b).len() >= 1,
    decreases b.len(),
{
    if b.len() > 0 {
        lemma_fields_len(b.drop_last());
    }
}

/// Bytes without `;` extend the last field.
proof fn lemma_fields_extend(y: Seq<u8>, d: Seq<u8>)
    requires
        forall|i: int| 0 <= i < d.len() ==> #[trigger] d[i] != 59u8,
    ensures
        fields(y + d) == fields(y).update(fields(y).len() - 1, fields(y).last() + d),
    decreases d.len(),
{
    lemma_fields_len(y);
    if d.len() == 0 {
        assert(y + d =~= y);
        assert(fields(y).last() + d =~= fields(y).last());
        assert(fields(y).update(fields(y).len() - 1, fields(y).last()) =~= fields(y));
    } else {
        let d0 = d.drop_last();
        assert forall|i: int| 0 <= i < d0.len() implies #[trigger] d0[i] != 59u8 by {
            assert(d0[i] == d[i]);
        }
        lemma_fields_extend(y, d0);
        assert((y + d).drop_last() =~= y + d0);
        assert((y + d).last() == d.last());
        let f = fields(y);
        let g = f.update(f.len() - 1, f.last() + d0);
        assert(g.last() == f.last() + d0);
        assert(g.len() == f.len());
        assert((f.last() + d0).push(d.last()) =~= f.last() + d);
        assert(g.update(g.len() - 1, g.last().push(d.last())) =~= f.update(f.len() - 1, f.last() + d));
    }
}

/// The parameters of `p0` followed by `; p` for each further parameter.
proof fn lemma_params_tail(p0: nat, ps: Seq<nat>)
    ensures
        params(decimal(p0) + tail(ps)) == seq![p0] + ps,
    decreases ps.len(),
{
    reveal(tail);
    lemma_decimal_reads(p0);
    if ps.len() == 0 {
        assert(decimal(p0) + tail(ps) =~= Seq::<u8>::empty() + decimal(p0));
        lemma_fields_extend(Seq::<u8>::empty(), decimal(p0));
        assert(fields(Seq::<u8>::empty()) == seq![Seq::<u8>::empty()]);
        assert(fields(decimal(p0)) =~= seq![decimal(p0)]);
        assert(params(decimal(p0)) =~= seq![p0]);
        assert(seq![p0] + ps =~= seq![p0]);
    } else {
        let init = ps.drop_last();
        let p = ps.last();
        lemma_params_tail(p0, init);
        lemma_decimal_reads(p);
        let x = decimal(p0) + tail(init);
        lemma_fields_len(x);
        assert(decimal(p0) + tail(ps) =~= (x + seq![59u8]) + decimal(p));
        assert((x + seq![59u8]).drop_last() =~= x);
        assert(fields(x + seq![59u8]) == fields(x).push(Seq::empty()));
        lemma_fields_extend(x + seq![59u8], decimal(p));
        let f = fields(x).push(Seq::<u8>::empty());
        assert(Seq::<u8>::empty() + decimal(p) =~= decimal(p));
        assert(fields((x + seq![59u8]) + decimal(p)) =~= fields(x).push(decimal(p)));
        assert(params(decimal(p0) + tail(ps)) =~= params(x).push(p));
        assert(seq![p0] + ps =~= (seq![p0] + init).push(p));
    }
}

proof fn lemma_tail_concat(a: Seq<nat>, b: Seq<nat>)
    ensures
        tail(a + b) == tail(a) + tail(b),
    decreases b.len(),
{
    reveal(tail);
    if b.len() == 0 {
        assert(a + b =~= a);
        assert(tail(a) + tail(b) =~= tail(a));
    } else {
        lemma_tail_concat(a, b.drop_last());
        assert((a + b).drop_last() =~= a + b.drop_last());
        assert((a + b).last() == b.last());
        assert(tail(a + b) =~= tail(a) + tail(b));
    }
}

proof fn lemma_tail_one(p: nat)
    ensures
        tail(seq![p]) == seq![59u8] + decimal(p),
{
    reveal(tail);
    assert(seq![p].drop_last() =~= Seq::<nat>::empty());
    assert(tail(Seq::<nat>::empty()) =~= Seq::<u8>::empty());
    assert(seq![p].last() == p);
    assert(tail(seq![p]) == tail(Seq::<nat>::empty()) + seq![59u8] + decimal(p));
    assert(tail(seq![p]) =~= seq![59u8] + decimal(p));
}

/// The parameters an attribute contributes.
spec fn attr_list(on: bool, code: nat) -> Seq<nat> {
    if on {
        seq![code]
    } else {
        Seq::empty()
    }
}

/// The parameters a colour contributes after `base` (38 or 48).
spec fn colour_list(c: Color, base: nat) -> Seq<nat> {
    match c {
        Color::Default => Seq::empty(),
        Color::Idx(i) => seq![base, 5, i as nat],
        Color::Rgb(r, g, b) => seq![base, 2, r as nat, g as nat, b as nat],
    }
}

proof fn lemma_attr_tail(on: bool, code: nat)
    ensures
        attr(on, code) == tail(attr_list(on, code)),
{
    if on {
        lemma_tail_one(code);
    } else {
        reveal(tail);
        assert(tail(Seq::<nat>::empty()) == Seq::<u8>::empty());
    }
}

proof fn lemma_tail3(a: nat, b: nat, c: nat)
    ensures
        tail(seq![a, b, c]) == seq![59u8] + decimal(a) + seq![59u8] + decimal(b) + seq![59u8] + decimal(c),
{
    lemma_tail_concat(seq![a], seq![b, c]);
    lemma_tail_concat(seq![b], seq![c]);
    assert(seq![a] + seq![b, c] =~= seq![a, b, c]);
    assert(seq![b] + seq![c] =~= seq![b, c]);
    lemma_tail_one(a);
    lemma_tail_one(b);
    lemma_tail_one(c);
    assert(tail(seq![a, b, c]) =~= seq![59u8] + decimal(a) + seq![59u8] + decimal(b) + seq![59u8] + decimal(c));
}

proof fn lemma_colour_tail(c: Color, base: nat)
    ensures
        colour_params(c, base) == tail(colour_list(c, base)),
{
    assert(decimal(5) =~= seq![53u8]);
    assert(decimal(2) =~= seq![50u8]);
    match c {
        Color::Default => {
            reveal(tail);
            assert(tail(Seq::<nat>::empty()) == Seq::<u8>::empty());
        },
        Color::Idx(i) => {
            lemma_tail3(base, 5, i as nat);
            assert(colour_params(c, base) =~= tail(colour_list(c, base)));
        },
        Color::Rgb(r, g, b) => {
            lemma_tail3(base, 2, r as nat);
            lemma_tail3(g as nat, b as nat, 0);
            lemma_tail_concat(seq![base, 2, r as nat], seq![g as nat, b as nat]);
            lemma_tail_concat(seq![g as nat], seq![b as nat]);
            assert(seq![g as nat] + seq![b as nat] =~= seq![g as nat, b as nat]);
            lemma_tail_one(g as nat);
            lemma_tail_one(b as nat);
            assert(seq![base, 2, r as nat] + seq![g as nat, b as nat] =~= colour_list(c, base));
            assert(colour_params(c, base) =~= tail(colour_list(c, base)));
        },
    }
}

proof fn lemma_apply_attr(st: Style, on: bool, code: nat, rest: Seq<nat>)
    requires
        code == 1 || code == 2 || code == 3 || code == 4 || code == 7,
    ensures
        apply_params(st, attr_list(on, code) + rest) == apply_params(
            if !on {
                st
            } else if code == 1 {
                Style { bold: true, ..st }
            } else if code == 2 {
                Style { dim: true, ..st }
            } else if code == 3 {
                Style { italic: true, ..st }
            } else if code == 4 {
                Style { underline: true, ..st }
            } else {
                Style { inverse: true, ..st }
            },
            rest,
        ),
{
    if on {
        let ps = seq![code] + rest;
        assert(ps[0] == code);
        assert(ps.drop_first() =~= rest);
    } else {
        assert(Seq::<nat>::empty() + rest =~= rest);
    }
}

proof fn lemma_apply_colour(st: Style, c: Color, base: nat, rest: Seq<nat>)
    requires
        base == 38 || base == 48,
    ensures
        apply_params(st, colour_list(c, base) + rest) == apply_params(
            if c is Default {
                st
            } else if base == 38 {
                Style { fg: c, ..st }
            } else {
                Style { bg: c, ..st }
            },
            rest,
        ),
{
    let ps = colour_list(c, base) + rest;
    match c {
        Color::Default => {
            assert(ps =~= rest);
        },
        Color::Idx(i) => {
            assert(ps[0] == base && ps[1] == 5 && ps[2] == i as nat);
            assert(ps.subrange(3, ps.len() as int) =~= rest);
        },
        Color::Rgb(r, g, b) => {
            assert(ps[0] == base && ps[1] == 2 && ps[2] == r as nat && ps[3] == g as nat && ps[4] == b as nat);
            assert(ps.subrange(5, ps.len() as int) =~= rest);
        },
    }
}

/// The parameters a style is written with, after the leading reset.
spec fn style_list(s: Style) -> Seq<nat> {
    attr_list(s.bold, 1) + (attr_list(s.dim, 2) + (attr_list(s.italic, 3) + (attr_list(s.underline, 4) + (
    attr_list(s.inverse, 7) + (colour_list(s.fg, 38) + colour_list(s.bg, 48))))))
}

proof fn lemma_style_tail(s: Style)
    ensures
        tail(style_list(s)) == attrs(s) + colour_params(s.fg, 38) + colour_params(s.bg, 48),
{
    let a1 = attr_list(s.bold, 1);
    let a2 = attr_list(s.dim, 2);
    let a3 = attr_list(s.italic, 3);
    let a4 = attr_list(s.underline, 4);
    let a5 = attr_list(s.inverse, 7);
    let cf = colour_list(s.fg, 38);
    let cb = colour_list(s.bg, 48);
    lemma_attr_tail(s.bold, 1);
    lemma_attr_tail(s.dim, 2);
    lemma_attr_tail(s.italic, 3);
    lemma_attr_tail(s.underline, 4);
    lemma_attr_tail(s.inverse, 7);
    lemma_colour_tail(s.fg, 38);
    lemma_colour_tail(s.bg, 48);
    let r5 = cf + cb;
    let r4 = a5 + r5;
    let r3 = a4 + r4;
    let r2 = a3 + r3;
    let r1 = a2 + r2;
    lemma_tail_concat(cf, cb);
    lemma_tail_concat(a5, r5);
    lemma_tail_concat(a4, r4);
    lemma_tail_concat(a3, r3);
    lemma_tail_concat(a2, r2);
    lemma_tail_concat(a1, r1);
    assert(style_list(s) == a1 + r1);
    let t = tail(a1) + (tail(a2) + (tail(a3) + (tail(a4) + (tail(a5) + (tail(cf) + tail(cb))))));
    assert(tail(style_list(s)) == t);
    lemma_regroup(tail(a1), tail(a2), tail(a3), tail(a4), tail(a5), tail(cf), tail(cb));
}

proof fn lemma_regroup(
    x1: Seq<u8>,
    x2: Seq<u8>,
    x3: Seq<u8>,
    x4: Seq<u8>,
    x5: Seq<u8>,
    x6: Seq<u8>,
    x7: Seq<u8>,
)
    ensures
        x1 + (x2 + (x3 + (x4 + (x5 + (x6 + x7))))) == x1 + x2 + x3 + x4 + x5 + x6 + x7,
{
    assert(x1 + (x2 + (x3 + (x4 + (x5 + (x6 + x7))))) =~= x1 + x2 + x3 + x4 + x5 + x6 + x7);
}

proof fn lemma_sgr_params(s: Style)
    ensures
        sgr(s).len() >= 3,
        sgr(s)[0] == 27u8,
        sgr(s)[1] == 91u8,
        sgr(s).last() == 109u8,
        params(sgr(s).subrange(2, sgr(s).len() - 1)) == seq![0nat] + style_list(s),
{
    let l = style_list(s);
    lemma_style_tail(s);
    let t = tail(l);
    let b = sgr(s);
    assert(decimal(0) =~= seq![48u8]);
    let mid = decimal(0) + t;
    assert(b =~= seq![27u8, 91u8] + mid + seq![109u8]);
    assert(b.subrange(2, b.len() - 1) =~= mid);
    lemma_params_tail(0, l);
}

proof fn lemma_apply_style(s: Style)
    ensures
        apply_params(default_style(), style_list(s)) == s,
{
    let a2 = attr_list(s.dim, 2);
    let a3 = attr_list(s.italic, 3);
    let a4 = attr_list(s.underline, 4);
    let a5 = attr_list(s.inverse, 7);
    let cf = colour_list(s.fg, 38);
    let cb = colour_list(s.bg, 48);
    let s0 = default_style();
    lemma_apply_attr(s0, s.bold, 1, a2 + (a3 + (a4 + (a5 + (cf + cb)))));
    let s1 = if s.bold { Style { bold: true, ..s0 } } else { s0 };
    lemma_apply_attr(s1, s.dim, 2, a3 + (a4 + (a5 + (cf + cb))));
    let s2 = if s.dim { Style { dim: true, ..s1 } } else { s1 };
    lemma_apply_attr(s2, s.italic, 3, a4 + (a5 + (cf + cb)));
    let s3 = if s.italic { Style { italic: true, ..s2 } } else { s2 };
    lemma_apply_attr(s3, s.underline, 4, a5 + (cf + cb));
    let s4 = if s.underline { Style { underline: true, ..s3 } } else { s3 };
    lemma_apply_attr(s4, s.inverse, 7, cf + cb);
    let s5 = if s.inverse { Style { inverse: true, ..s4 } } else { s4 };
    lemma_apply_colour(s5, s.fg, 38, cb);
    let s6 = if s.fg is Default { s5 } else { Style { fg: s.fg, ..s5 } };
    lemma_apply_colour(s6, s.bg, 48, Seq::empty());
    assert(cb + Seq::<nat>::empty() =~= cb);
    let s7 = if s.bg is Default { s6 } else { Style { bg: s.bg, ..s6 } };
    assert(apply_params(s7, Seq::<nat>::empty()) == s7);
    assert(s7 == s);
}

/// Every style the renderer selects reads back as itself, from whatever
/// style the terminal was in: its attributes, and its foreground and
/// background as indexed (`5 ; n`) or true colours (`2 ; red ; green ;
/// blue`, in that order).
pub proof fn lemma_sgr_reads_back(s: Style, from: Style)
    ensures
        read_rendition(sgr(s), from) == Some(s),
{
    lemma_sgr_params(s);
    lemma_apply_style(s);
    let ps = seq![0nat] + style_list(s);
    assert(ps[0] == 0);
    assert(ps.drop_first() =~= style_list(s));
}

} // verus!
