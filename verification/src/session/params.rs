//! Numeric parameters of control sequences: fields split at `;` and parsed
//! as `u16` the way `str::parse` does (an optional `+`, then decimal digits).
use vstd::prelude::*;
use crate::bytes::decimal;
use crate::pretty::labels::{all_digits, digits_value, is_digit};

verus! {

/// The fields of `t`, split at `;`; splitting never yields fewer than one
/// field.
pub open spec fn fields(t: Seq<char>) -> Seq<Seq<char>>
    decreases t.len(),
{
    if t.len() == 0 {
        seq![Seq::empty()]
    } else {
        let f = fields(t.drop_last());
        if t.last() == ';' {
            f.push(Seq::empty())
        } else {
            f.update(f.len() - 1, f.last().push(t.last()))
        }
    }
}

pub proof fn lemma_fields_len(t: Seq<char>)
    ensures
        fields(t).len() >= 1,
    decreases t.len(),
{
    if t.len() > 0 {
        lemma_fields_len(t.drop_last());
    }
}

/// `str::parse::<u16>`: an optional `+`, then one or more digits whose value
/// fits.
pub open spec fn parse_u16(f: Seq<char>) -> Option<u16> {
    parse_digits(unsigned_part(f))
}

/// The field without its optional `+`.
pub open spec fn unsigned_part(f: Seq<char>) -> Seq<char> {
    if f.len() > 0 && f[0] == '+' {
        f.skip(1)
    } else {
        f
    }
}

/// One or more decimal digits whose value fits in 16 bits.
pub open spec fn parse_digits(d: Seq<char>) -> Option<u16> {
    if d.len() > 0 && all_digits(d) && digits_value(d) <= 65535 {
        Some(digits_value(d) as u16)
    } else {
        None
    }
}

proof fn lemma_digits_step(d: Seq<char>, i: int)
    requires
        0 <= i < d.len(),
    ensures
        digits_value(d.take(i + 1)) == digits_value(d.take(i)) * 10 + (d[i] as u32 - 48),
{
    assert(d.take(i + 1).drop_last() =~= d.take(i));
}

proof fn lemma_digits_monotone(d: Seq<char>, i: int, j: int)
    requires
        0 <= i <= j <= d.len(),
        all_digits(d),
    ensures
        digits_value(d.take(i)) <= digits_value(d.take(j)),
        0 <= digits_value(d.take(i)),
    decreases j - i,
{
    if i < j {
        lemma_digits_monotone(d, i, j - 1);
        lemma_digits_step(d, j - 1);
    } else {
        lemma_digits_nonneg(d, i);
    }
}

proof fn lemma_digits_nonneg(d: Seq<char>, i: int)
    requires
        0 <= i <= d.len(),
        all_digits(d),
    ensures
        0 <= digits_value(d.take(i)),
    decreases i,
{
    if i > 0 {
        lemma_digits_nonneg(d, i - 1);
        lemma_digits_step(d, i - 1);
    } else {
        assert(d.take(0) =~= Seq::<char>::empty());
    }
}

/// Parses a field as `str::parse::<u16>` does.
pub fn parse_field(t: &[char], a: usize, b: usize) -> (r: Option<u16>)
    requires
        a <= b <= t@.len(),
    ensures
        r == parse_u16(t@.subrange(a as int, b as int)),
{
    let ghost f = t@.subrange(a as int, b as int);
    let start = if a < b && t[a] == '+' {
        a + 1
    } else {
        a
    };
    let ghost d = t@.subrange(start as int, b as int);
    assert(d =~= unsigned_part(f));
    if start == b {
        return None;
    }
    let mut value: u32 = 0;
    let mut i: usize = start;
    while i < b
        invariant
            start <= i <= b <= t@.len(),
            d == t@.subrange(start as int, b as int),
            d == unsigned_part(f),
            f == t@.subrange(a as int, b as int),
            forall|j: int| 0 <= j < i - start ==> is_digit(#[trigger] d[j]),
            value == digits_value(d.take(i - start)),
            value <= 65535,
        decreases b - i,
    {
        let c = t[i];
        if !('0' <= c && c <= '9') {
            assert(d[i - start] == c);
            assert(!is_digit(d[i - start]));
            assert(!all_digits(d));
            assert(parse_digits(d) is None);
            return None;
        }
        proof {
            lemma_digits_step(d, i - start);
        }
        let next = value * 10 + (c as u32 - 48);
        if next > 65535 {
            proof {
                assert(digits_value(d.take(i - start + 1)) > 65535);
                if all_digits(d) {
                    lemma_digits_monotone(d, i - start + 1, d.len() as int);
                    assert(d.take(d.len() as int) =~= d);
                }
                assert(parse_digits(d) is None);
            }
            return None;
        }
        value = next;
        i = i + 1;
    }
    assert(d.take(i - start) =~= d);
    Some(value as u16)
}

/// A field's value; with `empty_zero`, an empty field counts as 0.
pub open spec fn field_value(f: Seq<char>, empty_zero: bool) -> Option<u16> {
    if empty_zero && f.len() == 0 {
        Some(0)
    } else {
        parse_u16(f)
    }
}

/// Every field's value, or `None` when one does not parse.
pub open spec fn parse_all(fs: Seq<Seq<char>>, empty_zero: bool) -> Option<Seq<u16>>
    decreases fs.len(),
{
    if fs.len() == 0 {
        Some(Seq::empty())
    } else {
        match (parse_all(fs.drop_last(), empty_zero), field_value(fs.last(), empty_zero)) {
            (Some(vs), Some(v)) => Some(vs.push(v)),
            _ => None,
        }
    }
}

/// The `;`-separated values of `t`.
pub open spec fn spec_params(t: Seq<char>, empty_zero: bool) -> Option<Seq<u16>> {
    parse_all(fields(t), empty_zero)
}

/// Where each field of `t` starts and ends.
pub fn field_ranges(t: &[char]) -> (r: Vec<(usize, usize)>)
    ensures
        r@.len() == fields(t@).len(),
        forall|i: int|
            0 <= i < r@.len() ==> (#[trigger] r@[i]).0 <= r@[i].1 <= t@.len() && fields(t@)[i]
                == t@.subrange(r@[i].0 as int, r@[i].1 as int),
{
    let mut r: Vec<(usize, usize)> = Vec::new();
    let mut start: usize = 0;
    let mut i: usize = 0;
    assert(t@.take(0) =~= Seq::<char>::empty());
    while i < t.len()
        invariant
            start <= i <= t@.len(),
            fields(t@.take(i as int)).len() == r@.len() + 1,
            forall|j: int|
                0 <= j < r@.len() ==> (#[trigger] r@[j]).0 <= r@[j].1 <= i && fields(
                    t@.take(i as int),
                )[j] == t@.subrange(r@[j].0 as int, r@[j].1 as int),
            fields(t@.take(i as int)).last() == t@.subrange(start as int, i as int),
        decreases t@.len() - i,
    {
        let ghost before = fields(t@.take(i as int));
        assert(t@.take(i + 1).drop_last() =~= t@.take(i as int));
        assert(t@.take(i + 1).last() == t@[i as int]);
        assert(fields(t@.take(i + 1)) == if t@[i as int] == ';' {
            before.push(Seq::empty())
        } else {
            before.update(before.len() - 1, before.last().push(t@[i as int]))
        });
        let ghost r0 = r@;
        if t[i] == ';' {
            r.push((start, i));
            start = i + 1;
            assert(t@.subrange(start as int, i + 1) =~= Seq::<char>::empty());
        } else {
            assert(t@.subrange(start as int, i + 1) =~= t@.subrange(start as int, i as int).push(
                t@[i as int],
            ));
        }
        i = i + 1;
        assert forall|j: int| 0 <= j < r@.len() implies (#[trigger] r@[j]).0 <= r@[j].1 <= i
            && fields(t@.take(i as int))[j] == t@.subrange(r@[j].0 as int, r@[j].1 as int) by {
            if j < r0.len() {
                assert(r@[j] == r0[j]);
            }
        }
    }
    let ghost r0 = r@;
    r.push((start, i));
    assert(t@.take(i as int) =~= t@);
    assert forall|j: int| 0 <= j < r@.len() implies (#[trigger] r@[j]).0 <= r@[j].1 <= t@.len()
        && fields(t@)[j] == t@.subrange(r@[j].0 as int, r@[j].1 as int) by {
        if j < r0.len() {
            assert(r@[j] == r0[j]);
        }
    }
    r
}

/// The values of the `;`-separated fields of `t`.
pub fn params(t: &[char], empty_zero: bool) -> (r: Option<Vec<u16>>)
    ensures
        match r {
            Some(v) => spec_params(t@, empty_zero) == Some(v@),
            None => spec_params(t@, empty_zero) is None,
        },
{
    let ranges = field_ranges(t);
    let ghost fs = fields(t@);
    let mut values: Vec<u16> = Vec::new();
    let mut i: usize = 0;
    while i < ranges.len()
        invariant
            i <= ranges@.len(),
            ranges@.len() == fs.len(),
            fs == fields(t@),
            forall|j: int|
                0 <= j < ranges@.len() ==> (#[trigger] ranges@[j]).0 <= ranges@[j].1 <= t@.len()
                    && fs[j] == t@.subrange(ranges@[j].0 as int, ranges@[j].1 as int),
            parse_all(fs.take(i as int), empty_zero) == Some(values@),
        decreases ranges@.len() - i,
    {
        let (a, b) = ranges[i];
        assert(fs[i as int] == t@.subrange(a as int, b as int));
        assert(fs.take(i + 1).drop_last() =~= fs.take(i as int));
        assert(fs.take(i + 1).last() == fs[i as int]);
        let v = if empty_zero && a == b {
            assert(fs[i as int].len() == 0);
            Some(0u16)
        } else {
            parse_field(t, a, b)
        };
        match v {
            Some(x) => {
                values.push(x);
            },
            None => {
                proof {
                    lemma_parse_all_none(fs, i as int + 1, empty_zero);
                    assert(fs.take(fs.len() as int) =~= fs);
                }
                return None;
            },
        }
        i = i + 1;
    }
    assert(fs.take(i as int) =~= fs);
    Some(values)
}

proof fn lemma_parse_all_none(fs: Seq<Seq<char>>, n: int, empty_zero: bool)
    requires
        0 < n <= fs.len(),
        parse_all(fs.take(n), empty_zero) is None,
    ensures
        parse_all(fs.take(fs.len() as int), empty_zero) is None,
    decreases fs.len() - n,
{
    if n < fs.len() {
        assert(fs.take(n + 1).drop_last() =~= fs.take(n));
        lemma_parse_all_none(fs, n + 1, empty_zero);
    }
}

/// Bytes read as characters, one each.
pub open spec fn ascii(bytes: Seq<u8>) -> Seq<char> {
    bytes.map_values(|b: u8| b as char)
}

/// The decimal digits of `n` read back give `n`.
pub proof fn lemma_decimal_digits(n: nat)
    ensures
        ascii(decimal(n)).len() > 0,
        all_digits(ascii(decimal(n))),
        digits_value(ascii(decimal(n))) == n,
        forall|i: int| 0 <= i < ascii(decimal(n)).len() ==> #[trigger] ascii(decimal(n))[i] != ';',
    decreases n,
{
    let d = ascii(decimal(n));
    if n < 10 {
        let c = ((48 + n) as u8) as char;
        assert(c as u32 == 48 + n);
        assert(d =~= seq![c]);
        assert(d.drop_last() =~= Seq::<char>::empty());
        assert(d.last() == c);
        assert(digits_value(d) == digits_value(d.drop_last()) * 10 + (d.last() as u32 - 48));
        assert(digits_value(Seq::<char>::empty()) == 0);
    } else {
        lemma_decimal_digits(n / 10);
        let prev = ascii(decimal(n / 10));
        let c = ((48 + n % 10) as u8) as char;
        assert(c as u32 == 48 + n % 10);
        assert(d =~= prev.push(c));
        assert(d.drop_last() =~= prev);
        assert(d.last() == c);
        assert(n == (n / 10) * 10 + n % 10) by (nonlinear_arith);
        assert(digits_value(d) == digits_value(d.drop_last()) * 10 + (d.last() as u32 - 48));
        assert forall|i: int| 0 <= i < d.len() implies crate::pretty::labels::is_digit(#[trigger] d[i]) && d[i] != ';' by {
            if i < prev.len() {
                assert(d[i] == prev[i]);
            }
        }
    }
}

/// A run without `;` is one field.
pub proof fn lemma_fields_single(t: Seq<char>)
    requires
        forall|i: int| 0 <= i < t.len() ==> t[i] != ';',
    ensures
        fields(t) == seq![t],
    decreases t.len(),
{
    if t.len() > 0 {
        lemma_fields_single(t.drop_last());
        assert(t.drop_last().push(t.last()) =~= t);
        assert(fields(t) =~= seq![t]);
    } else {
        assert(t =~= Seq::<char>::empty());
    }
}

/// Splitting at a `;` splits the fields there.
pub proof fn lemma_fields_join(x: Seq<char>, y: Seq<char>)
    ensures
        fields(x + seq![';'] + y) == fields(x) + fields(y),
    decreases y.len(),
{
    lemma_fields_len(x);
    if y.len() == 0 {
        let t = x + seq![';'];
        assert(t.drop_last() =~= x);
        assert(x + seq![';'] + y =~= t);
        assert(fields(y) =~= seq![Seq::<char>::empty()]);
        assert(fields(t) =~= fields(x) + fields(y));
    } else {
        lemma_fields_join(x, y.drop_last());
        lemma_fields_len(y.drop_last());
        let t = x + seq![';'] + y;
        assert(t.drop_last() =~= x + seq![';'] + y.drop_last());
        assert(t.last() == y.last());
        let fy = fields(y.drop_last());
        let fx = fields(x);
        if y.last() == ';' {
            assert(fields(t) =~= fx + fy.push(Seq::empty()));
        } else {
            assert((fx + fy).update((fx + fy).len() - 1, (fx + fy).last().push(y.last())) =~= fx
                + fy.update(fy.len() - 1, fy.last().push(y.last())));
        }
    }
}

/// The values of concatenated field lists, concatenated.
pub proof fn lemma_parse_all_join(a: Seq<Seq<char>>, b: Seq<Seq<char>>, empty_zero: bool)
    requires
        parse_all(a, empty_zero) is Some,
        parse_all(b, empty_zero) is Some,
    ensures
        parse_all(a + b, empty_zero) == Some(parse_all(a, empty_zero)->0 + parse_all(b, empty_zero)->0),
    decreases b.len(),
{
    if b.len() == 0 {
        assert(a + b =~= a);
        assert(parse_all(a, empty_zero)->0 + parse_all(b, empty_zero)->0 =~= parse_all(a, empty_zero)->0);
    } else {
        lemma_parse_all_join(a, b.drop_last(), empty_zero);
        assert((a + b).drop_last() =~= a + b.drop_last());
        assert((a + b).last() == b.last());
        assert(parse_all(a, empty_zero)->0 + parse_all(b, empty_zero)->0 =~= (parse_all(a, empty_zero)->0
            + parse_all(b.drop_last(), empty_zero)->0).push(field_value(b.last(), empty_zero)->0));
    }
}

/// A decimal number parses back to itself.
pub proof fn lemma_parse_decimal(n: nat, empty_zero: bool)
    requires
        n <= 65535,
    ensures
        parse_all(seq![ascii(decimal(n))], empty_zero) == Some(seq![n as u16]),
{
    lemma_decimal_digits(n);
    let d = ascii(decimal(n));
    assert(d[0] != '+') by {
        assert(crate::pretty::labels::is_digit(d[0]));
    };
    assert(unsigned_part(d) == d);
    assert(parse_digits(d) == Some(n as u16));
    assert(field_value(d, empty_zero) == Some(n as u16));
    assert(seq![d].drop_last() =~= Seq::<Seq<char>>::empty());
    assert(seq![d].last() == d);
    assert(parse_all(Seq::<Seq<char>>::empty(), empty_zero) == Some(Seq::<u16>::empty()));
    assert(Seq::<u16>::empty().push(n as u16) =~= seq![n as u16]);
}

} // verus!
