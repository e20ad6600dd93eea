//! Launching a child on Windows: which file extensions run, and the encoded
//! PowerShell script that runs a batch file with literal arguments.
use base64::Engine;
use vstd::prelude::*;
use crate::bytes::utf8;
use crate::display::renderer::{opt_str, texts_view};
use crate::session::params::fields;
use crate::text::{chars_of, push_all, string_from_chars};

verus! {

/// ASCII letters in lower case; everything else unchanged.
pub open spec fn ascii_lower(c: char) -> char {
    if 'A' <= c && c <= 'Z' {
        ((c as u32) + 32) as char
    } else {
        c
    }
}

/// `str::eq_ignore_ascii_case` against a lower-case ASCII word.
pub open spec fn same_ignoring_case(t: Seq<char>, word: Seq<char>) -> bool {
    t.len() == word.len() && forall|i: int| 0 <= i < t.len() ==> ascii_lower(#[trigger] t[i]) == word[i]
}

fn lower(c: char) -> (r: char)
    ensures
        r == ascii_lower(c),
{
    if 'A' <= c && c <= 'Z' {
        let v = (c as u8) + 32;
        v as char
    } else {
        c
    }
}

fn same_word(t: &[char], word: &[char]) -> (r: bool)
    ensures
        r == same_ignoring_case(t@, word@),
{
    if t.len() != word.len() {
        return false;
    }
    let mut i: usize = 0;
    while i < t.len()
        invariant
            t@.len() == word@.len(),
            i <= t@.len(),
            forall|j: int| 0 <= j < i ==> ascii_lower(#[trigger] t@[j]) == word@[j],
        decreases t@.len() - i,
    {
        if lower(t[i]) != word[i] {
            return false;
        }
        i = i + 1;
    }
    true
}

/// Extensions Windows runs directly: `com`, `exe`, `bat` and `cmd`, in any
/// case.
pub open spec fn spec_supported_extension(e: Seq<char>) -> bool {
    same_ignoring_case(e, seq!['c', 'o', 'm']) || same_ignoring_case(e, seq!['e', 'x', 'e'])
        || same_ignoring_case(e, seq!['b', 'a', 't']) || same_ignoring_case(e, seq!['c', 'm', 'd'])
}

/// Batch files, which need a shell: `bat` and `cmd`, in any case.
pub open spec fn spec_batch_extension(e: Seq<char>) -> bool {
    same_ignoring_case(e, seq!['b', 'a', 't']) || same_ignoring_case(e, seq!['c', 'm', 'd'])
}

pub fn supported_windows_extension(ext: &str) -> (r: bool)
    ensures
        r == spec_supported_extension(ext@),
{
    let t = chars_of(ext);
    let r = same_word(t.as_slice(), &['c', 'o', 'm']) || same_word(t.as_slice(), &['e', 'x', 'e'])
        || same_word(t.as_slice(), &['b', 'a', 't']) || same_word(t.as_slice(), &['c', 'm', 'd']);
    assert(['c', 'o', 'm']@ =~= seq!['c', 'o', 'm']);
    assert(['e', 'x', 'e']@ =~= seq!['e', 'x', 'e']);
    assert(['b', 'a', 't']@ =~= seq!['b', 'a', 't']);
    assert(['c', 'm', 'd']@ =~= seq!['c', 'm', 'd']);
    r
}

pub fn batch_extension(ext: &str) -> (r: bool)
    ensures
        r == spec_batch_extension(ext@),
{
    let t = chars_of(ext);
    let r = same_word(t.as_slice(), &['b', 'a', 't']) || same_word(t.as_slice(), &['c', 'm', 'd']);
    assert(['b', 'a', 't']@ =~= seq!['b', 'a', 't']);
    assert(['c', 'm', 'd']@ =~= seq!['c', 'm', 'd']);
    r
}

/// `t` without the dots it starts with.
pub open spec fn undotted(t: Seq<char>) -> Seq<char>
    decreases t.len(),
{
    if t.len() > 0 && t[0] == '.' {
        undotted(t.drop_first())
    } else {
        t
    }
}

/// The `PATHEXT` entries, in order, whose extension runs directly.
pub open spec fn pathext_from(fs: Seq<Seq<char>>) -> Seq<Seq<char>>
    decreases fs.len(),
{
    if fs.len() == 0 {
        Seq::empty()
    } else {
        let rest = pathext_from(fs.drop_last());
        if spec_supported_extension(undotted(fs.last())) {
            rest.push(fs.last())
        } else {
            rest
        }
    }
}

/// The suffixes tried, in order, for a command named without extension.
pub fn pathext_candidates(extensions: &str) -> (r: Vec<String>)
    ensures
        r@.map_values(|s: String| s@) == pathext_from(fields(extensions@)),
{
    let t = chars_of(extensions);
    let ranges = crate::session::params::field_ranges(t.as_slice());
    let ghost fs = fields(t@);
    let mut out: Vec<String> = Vec::new();
    let mut i: usize = 0;
    while i < ranges.len()
        invariant
            i <= ranges@.len(),
            ranges@.len() == fs.len(),
            fs == fields(t@),
            t@ == extensions@,
            forall|j: int|
                0 <= j < ranges@.len() ==> (#[trigger] ranges@[j]).0 <= ranges@[j].1 <= t@.len()
                    && fs[j] == t@.subrange(ranges@[j].0 as int, ranges@[j].1 as int),
            out@.map_values(|s: String| s@) == pathext_from(fs.take(i as int)),
        decreases ranges@.len() - i,
    {
        let (a, b) = ranges[i];
        let field = crate::pretty::rows::part(t.as_slice(), a, b);
        assert(field@ == fs[i as int]);
        let mut k: usize = 0;
        assert(field@.skip(0) =~= field@);
        while k < field.len() && field[k] == '.'
            invariant
                k <= field@.len(),
                undotted(field@) == undotted(field@.skip(k as int)),
            decreases field@.len() - k,
        {
            assert(field@.skip(k as int).drop_first() =~= field@.skip(k + 1));
            k = k + 1;
        }
        assert(field@.skip(0) =~= field@);
        let rest = crate::pretty::rows::part(field.as_slice(), k, field.len());
        assert(rest@ =~= field@.skip(k as int));
        let ext = string_from_chars(rest.as_slice());
        assert(fs.take(i + 1).drop_last() =~= fs.take(i as int));
        assert(fs.take(i + 1).last() == fs[i as int]);
        if supported_windows_extension(ext.as_str()) {
            let ghost before = out@;
            let s = string_from_chars(field.as_slice());
            let ghost sv = s@;
            out.push(s);
            assert(out@ == before.push(s));
            assert(out@.map_values(|s: String| s@) =~= before.map_values(|s: String| s@).push(sv));
        }
        i = i + 1;
    }
    assert(fs.take(i as int) =~= fs);
    out
}

/// What to try in each directory for a command: the name itself when its
/// extension runs directly, or, for a name without extension, each runnable
/// `PATHEXT` suffix in order (`None` stands for the name itself).
pub open spec fn spec_suffixes(extension: Option<Seq<char>>, pathext: Seq<char>) -> Seq<Option<Seq<char>>> {
    match extension {
        Some(e) => if spec_supported_extension(e) {
            seq![None]
        } else {
            Seq::empty()
        },
        None => pathext_from(fields(pathext)).map_values(|s: Seq<char>| Some(s)),
    }
}

pub fn resolution_suffixes(extension: Option<&str>, pathext: &str) -> (r: Vec<Option<String>>)
    ensures
        texts_view(r@) == spec_suffixes(opt_str(extension), pathext@),
{
    match extension {
        Some(e) => {
            let mut r: Vec<Option<String>> = Vec::new();
            if supported_windows_extension(e) {
                r.push(None);
            }
            assert(texts_view(r@) =~= spec_suffixes(opt_str(extension), pathext@));
            r
        },
        None => {
            let names = pathext_candidates(pathext);
            let ghost goal = names@.map_values(|s: String| s@).map_values(|s: Seq<char>| Some(s));
            let mut r: Vec<Option<String>> = Vec::new();
            let mut i: usize = 0;
            while i < names.len()
                invariant
                    i <= names@.len(),
                    goal == names@.map_values(|s: String| s@).map_values(|s: Seq<char>| Some(s)),
                    texts_view(r@) == goal.take(i as int),
                decreases names@.len() - i,
            {
                let ghost before = r@;
                let t = string_from_chars(chars_of(names[i].as_str()).as_slice());
                let ghost tv = t@;
                r.push(Some(t));
                assert(r@ == before.push(Some(t)));
                assert(texts_view(r@) =~= texts_view(before).push(Some(tv)));
                i = i + 1;
                assert(texts_view(r@) =~= goal.take(i as int));
            }
            assert(goal.take(i as int) =~= goal);
            r
        },
    }
}

/// A PowerShell string literal: in single quotes, each quote doubled.
pub open spec fn quoted(t: Seq<char>) -> Seq<char> {
    seq!['\''] + doubled_quotes(t) + seq!['\'']
}

pub open spec fn doubled_quotes(t: Seq<char>) -> Seq<char>
    decreases t.len(),
{
    if t.len() == 0 {
        Seq::empty()
    } else {
        doubled_quotes(t.drop_last()) + if t.last() == '\'' {
            seq!['\'', '\'']
        } else {
            seq![t.last()]
        }
    }
}

fn push_quoted(out: &mut Vec<char>, t: &[char])
    ensures
        final(out)@ == old(out)@ + quoted(t@),
{
    let ghost start = old(out)@;
    out.push('\'');
    let mut i: usize = 0;
    while i < t.len()
        invariant
            i <= t@.len(),
            out@ == start + seq!['\''] + doubled_quotes(t@.take(i as int)),
        decreases t@.len() - i,
    {
        assert(t@.take(i + 1).drop_last() =~= t@.take(i as int));
        if t[i] == '\'' {
            out.push('\'');
            out.push('\'');
        } else {
            out.push(t[i]);
        }
        i = i + 1;
        assert(out@ =~= start + seq!['\''] + doubled_quotes(t@.take(i as int)));
    }
    assert(t@.take(i as int) =~= t@);
    out.push('\'');
    assert(out@ =~= start + quoted(t@));
}

/// The script's opening: stop on errors, UTF-8 output, then the call
/// operator.
pub open spec fn script_head() -> Seq<char> {
    "$ErrorActionPreference = 'Stop'; [Console]::OutputEncoding = [System.Text.UTF8Encoding]::new($false); $OutputEncoding = [Console]::OutputEncoding; & "@
}

/// The script's end: exit with the batch file's status, or 1.
pub open spec fn script_tail() -> Seq<char> {
    "; if ($null -ne $LASTEXITCODE) { exit $LASTEXITCODE } else { exit 1 }"@
}

pub open spec fn quoted_args(args: Seq<Seq<char>>) -> Seq<char>
    decreases args.len(),
{
    if args.len() == 0 {
        Seq::empty()
    } else {
        quoted_args(args.drop_last()) + seq![' '] + quoted(args.last())
    }
}

/// The script that runs a batch file with its arguments as literal strings.
pub open spec fn spec_batch_script(path: Seq<char>, args: Seq<Seq<char>>) -> Seq<char> {
    script_head() + quoted(path) + quoted_args(args) + script_tail()
}

pub fn powershell_batch_script(path: &str, args: &[String]) -> (script: String)
    ensures
        script@ == spec_batch_script(path@, args@.map_values(|a: String| a@)),
{
    let ghost av = args@.map_values(|a: String| a@);
    let mut out = chars_of("$ErrorActionPreference = 'Stop'; [Console]::OutputEncoding = [System.Text.UTF8Encoding]::new($false); $OutputEncoding = [Console]::OutputEncoding; & ");
    let p = chars_of(path);
    push_quoted(&mut out, p.as_slice());
    let ghost head = out@;
    let mut i: usize = 0;
    while i < args.len()
        invariant
            i <= args@.len(),
            av == args@.map_values(|a: String| a@),
            out@ == head + quoted_args(av.take(i as int)),
        decreases args@.len() - i,
    {
        assert(av.take(i + 1).drop_last() =~= av.take(i as int));
        assert(av[i as int] == args@[i as int]@);
        out.push(' ');
        let a = chars_of(args[i].as_str());
        push_quoted(&mut out, a.as_slice());
        i = i + 1;
        assert(out@ =~= head + quoted_args(av.take(i as int)));
    }
    assert(av.take(i as int) =~= av);
    let tail = chars_of("; if ($null -ne $LASTEXITCODE) { exit $LASTEXITCODE } else { exit 1 }");
    push_all(&mut out, tail.as_slice());
    string_from_chars(out.as_slice())
}

/// UTF-16 code units of characters.
pub open spec fn utf16(chars: Seq<char>) -> Seq<u16>
    decreases chars.len(),
{
    if chars.len() == 0 {
        Seq::empty()
    } else {
        let c = chars.last() as u32;
        utf16(chars.drop_last()) + if c < 0x10000 {
            seq![c as u16]
        } else {
            seq![(0xd800 + ((c - 0x10000) / 0x400)) as u16, (0xdc00 + ((c - 0x10000) % 0x400)) as u16]
        }
    }
}

/// Each unit as two bytes, low byte first.
pub open spec fn little_endian(units: Seq<u16>) -> Seq<u8>
    decreases units.len(),
{
    if units.len() == 0 {
        Seq::empty()
    } else {
        little_endian(units.drop_last()) + seq![(units.last() % 256) as u8, (units.last() / 256) as u8]
    }
}

/// What the base64 `STANDARD` engine (padded) makes of bytes.
pub uninterp spec fn spec_base64(bytes: Seq<u8>) -> Seq<char>;

/// `base64::engine::general_purpose::STANDARD.encode`.
#[verifier::external_body]
fn base64_standard(bytes: &[u8]) -> (s: String)
    requires
        bytes@.len() <= usize::MAX / 2,
    ensures
        s@ == spec_base64(bytes@),
{
    base64::engine::general_purpose::STANDARD.encode(bytes)
}

/// The script as PowerShell's `-EncodedCommand` takes it: base64 of its
/// UTF-16LE bytes.
pub fn encoded_command(script: &str) -> (r: String)
    requires
        script@.len() <= usize::MAX / 8,
    ensures
        r@ == spec_base64(little_endian(utf16(script@))),
{
    let t = chars_of(script);
    let mut units: Vec<u16> = Vec::new();
    let mut i: usize = 0;
    while i < t.len()
        invariant
            i <= t@.len(),
            t@ == script@,
            t@.len() <= usize::MAX / 8,
            units@ == utf16(t@.take(i as int)),
            units@.len() <= 2 * i,
        decreases t@.len() - i,
    {
        assert(t@.take(i + 1).drop_last() =~= t@.take(i as int));
        assert(t@.take(i + 1).last() == t@[i as int]);
        let c = t[i] as u32;
        if c < 0x10000 {
            units.push(c as u16);
        } else {
            units.push((0xd800 + (c - 0x10000) / 0x400) as u16);
            units.push((0xdc00 + (c - 0x10000) % 0x400) as u16);
        }
        i = i + 1;
        assert(units@ =~= utf16(t@.take(i as int)));
    }
    assert(t@.take(i as int) =~= t@);
    let mut bytes: Vec<u8> = Vec::new();
    let mut j: usize = 0;
    while j < units.len()
        invariant
            j <= units@.len(),
            units@.len() <= usize::MAX / 4,
            bytes@ == little_endian(units@.take(j as int)),
            bytes@.len() == 2 * j,
        decreases units@.len() - j,
    {
        assert(units@.take(j + 1).drop_last() =~= units@.take(j as int));
        assert(units@.take(j + 1).last() == units@[j as int]);
        let u = units[j];
        bytes.push((u % 256) as u8);
        bytes.push((u / 256) as u8);
        j = j + 1;
        assert(bytes@ =~= little_endian(units@.take(j as int)));
    }
    assert(units@.take(j as int) =~= units@);
    base64_standard(bytes.as_slice())
}

/// The text a PowerShell single-quoted literal stands for: inside the
/// quotes, two quotes in a row are one quote.
pub open spec fn undoubled(u: Seq<char>) -> Seq<char>
    decreases u.len(),
{
    if u.len() == 0 {
        Seq::empty()
    } else if u.len() >= 2 && u[0] == '\'' && u[1] == '\'' {
        seq!['\''] + undoubled(u.skip(2))
    } else {
        seq![u[0]] + undoubled(u.drop_first())
    }
}

/// The value of a single-quoted literal, or `None` when `s` is not one.
pub open spec fn literal_value(s: Seq<char>) -> Option<Seq<char>> {
    if s.len() >= 2 && s[0] == '\'' && s.last() == '\'' {
        Some(undoubled(s.subrange(1, s.len() - 1)))
    } else {
        None
    }
}

proof fn lemma_doubled_concat(a: Seq<char>, b: Seq<char>)
    ensures
        doubled_quotes(a + b) == doubled_quotes(a) + doubled_quotes(b),
    decreases b.len(),
{
    if b.len() == 0 {
        assert(a + b =~= a);
        assert(doubled_quotes(a) + doubled_quotes(b) =~= doubled_quotes(a));
    } else {
        lemma_doubled_concat(a, b.drop_last());
        assert((a + b).drop_last() =~= a + b.drop_last());
        assert((a + b).last() == b.last());
        assert(doubled_quotes(a + b) =~= doubled_quotes(a) + doubled_quotes(b));
    }
}

proof fn lemma_undoubled(t: Seq<char>)
    ensures
        undoubled(doubled_quotes(t)) == t,
    decreases t.len(),
{
    if t.len() > 0 {
        let c = t[0];
        let rest = t.drop_first();
        lemma_undoubled(rest);
        assert(t =~= seq![c] + rest);
        lemma_doubled_concat(seq![c], rest);
        assert(seq![c].drop_last() =~= Seq::<char>::empty());
        assert(seq![c].last() == c);
        assert(doubled_quotes(Seq::<char>::empty()) =~= Seq::<char>::empty());
        let d = doubled_quotes(seq![c]);
        let u = doubled_quotes(t);
        assert(u == d + doubled_quotes(rest));
        if c == '\'' {
            assert(d =~= seq!['\'', '\'']);
            assert(u.skip(2) =~= doubled_quotes(rest));
        } else {
            assert(d =~= seq![c]);
            assert(u.drop_first() =~= doubled_quotes(rest));
        }
        assert(undoubled(u) =~= t);
    } else {
        assert(doubled_quotes(t) =~= Seq::<char>::empty());
    }
}

/// Quoting is faithful: every argument and the path read back from their
/// PowerShell literals exactly, quotes included.
pub proof fn lemma_quoted_reads_back(t: Seq<char>)
    ensures
        literal_value(quoted(t)) == Some(t),
{
    lemma_undoubled(t);
    let q = quoted(t);
    assert(q.subrange(1, q.len() - 1) =~= doubled_quotes(t));
}

/// The three letters `word` (lower case), each in either case.
pub open spec fn spelled(e: Seq<char>, word: Seq<char>) -> bool {
    e.len() == 3 && forall|i: int| 0 <= i < 3 ==> (#[trigger] e[i] == word[i] || e[i] as u32 + 32 == word[i] as u32)
}

/// Windows runs `com`, `exe`, `bat` and `cmd` files directly, in any case;
/// of those, `bat` and `cmd` are batch files that need a shell.
pub proof fn lemma_extensions(e: Seq<char>)
    ensures
        spec_supported_extension(e) <==> (spelled(e, seq!['c', 'o', 'm']) || spelled(e, seq!['e', 'x', 'e'])
            || spelled(e, seq!['b', 'a', 't']) || spelled(e, seq!['c', 'm', 'd'])),
        spec_batch_extension(e) <==> (spelled(e, seq!['b', 'a', 't']) || spelled(e, seq!['c', 'm', 'd'])),
{
    assert forall|w: Seq<char>|
        w.len() == 3 && (forall|i: int| 0 <= i < 3 ==> 'a' <= #[trigger] w[i] <= 'z') implies (
        same_ignoring_case(e, w) <==> spelled(e, w)) by {
        if same_ignoring_case(e, w) {
            assert forall|i: int| 0 <= i < 3 implies (#[trigger] e[i] == w[i] || e[i] as u32 + 32 == w[i] as u32) by {
                assert(ascii_lower(e[i]) == w[i]);
            }
        }
        if spelled(e, w) {
            assert forall|i: int| 0 <= i < e.len() implies ascii_lower(#[trigger] e[i]) == w[i] by {
                assert('a' <= w[i] <= 'z');
                if e[i] != w[i] {
                    assert(e[i] as u32 + 32 == w[i] as u32);
                    assert('A' <= e[i] <= 'Z');
                }
            }
        }
    }
    let com = seq!['c', 'o', 'm'];
    let exe = seq!['e', 'x', 'e'];
    let bat = seq!['b', 'a', 't'];
    let cmd = seq!['c', 'm', 'd'];
    assert forall|i: int| 0 <= i < 3 implies 'a' <= #[trigger] com[i] <= 'z' by {}
    assert forall|i: int| 0 <= i < 3 implies 'a' <= #[trigger] exe[i] <= 'z' by {}
    assert forall|i: int| 0 <= i < 3 implies 'a' <= #[trigger] bat[i] <= 'z' by {}
    assert forall|i: int| 0 <= i < 3 implies 'a' <= #[trigger] cmd[i] <= 'z' by {}
}

/// The code units held by little-endian bytes: unit `k` is byte `2k` plus
/// 256 times byte `2k + 1`.
pub open spec fn units_of(b: Seq<u8>) -> Seq<u16> {
    Seq::new(b.len() / 2, |k: int| (b[2 * k] + 256 * b[2 * k + 1]) as u16)
}

/// The code points that UTF-16 units stand for: a high surrogate followed by
/// a low one join into one supplementary code point; any other unit is its
/// own code point.
pub open spec fn code_points(u: Seq<u16>) -> Seq<u32>
    decreases u.len(),
{
    if u.len() == 0 {
        Seq::empty()
    } else if u.len() >= 2 && 0xD800 <= u[0] < 0xDC00 && 0xDC00 <= u[1] < 0xE000 {
        seq![(0x10000 + (u[0] - 0xD800) * 0x400 + (u[1] - 0xDC00)) as u32] + code_points(u.skip(2))
    } else {
        seq![u[0] as u32] + code_points(u.drop_first())
    }
}

proof fn lemma_little_endian_at(u: Seq<u16>)
    ensures
        little_endian(u).len() == 2 * u.len(),
        forall|k: int|
            0 <= k < u.len() ==> little_endian(u)[2 * k] == (u[k] % 256) as u8 && little_endian(u)[2 * k + 1]
                == (u[k] / 256) as u8,
    decreases u.len(),
{
    if u.len() > 0 {
        let init = u.drop_last();
        lemma_little_endian_at(init);
        let b = little_endian(u);
        assert forall|k: int| 0 <= k < u.len() implies b[2 * k] == (u[k] % 256) as u8 && b[2 * k + 1] == (u[k]
            / 256) as u8 by {
            if k < init.len() {
                assert(u[k] == init[k]);
            }
        }
    }
}

proof fn lemma_units_of(u: Seq<u16>)
    ensures
        units_of(little_endian(u)) == u,
{
    lemma_little_endian_at(u);
    let b = little_endian(u);
    assert forall|k: int| 0 <= k < u.len() implies #[trigger] units_of(b)[k] == u[k] by {
        let x = u[k];
        assert(b[2 * k] == (x % 256) as u8);
        assert(b[2 * k + 1] == (x / 256) as u8);
        assert((x % 256) + 256 * (x / 256) == x);
    }
    assert(units_of(b) =~= u);
}

proof fn lemma_utf16_concat(a: Seq<char>, b: Seq<char>)
    ensures
        utf16(a + b) == utf16(a) + utf16(b),
    decreases b.len(),
{
    if b.len() == 0 {
        assert(a + b =~= a);
        assert(utf16(a) + utf16(b) =~= utf16(a));
    } else {
        lemma_utf16_concat(a, b.drop_last());
        assert((a + b).drop_last() =~= a + b.drop_last());
        assert((a + b).last() == b.last());
        assert(utf16(a + b) =~= utf16(a) + utf16(b));
    }
}

/// A character is a Unicode scalar value.
proof fn lemma_scalar(c: char)
    ensures
        !(0xD800 <= c as u32 <= 0xDFFF),
        c as u32 <= 0x10FFFF,
{
}

proof fn lemma_code_points(s: Seq<char>)
    ensures
        code_points(utf16(s)) == s.map_values(|c: char| c as u32),
    decreases s.len(),
{
    if s.len() > 0 {
        let c = s[0];
        let rest = s.drop_first();
        lemma_code_points(rest);
        assert(s =~= seq![c] + rest);
        lemma_utf16_concat(seq![c], rest);
        assert(seq![c].drop_last() =~= Seq::<char>::empty());
        assert(seq![c].last() == c);
        let v = c as u32;
        lemma_scalar(c);
        assert(utf16(Seq::<char>::empty()) =~= Seq::<u16>::empty());
        let head = utf16(seq![c]);
        let u = utf16(s);
        assert(u == head + utf16(rest));
        if v < 0x10000 {
            assert(head =~= seq![v as u16]);
            assert(!(0xD800 <= v <= 0xDFFF));
            assert(u.drop_first() =~= utf16(rest));
        } else {
            let q = (v - 0x10000) / 0x400;
            let r = (v - 0x10000) % 0x400;
            assert(head =~= seq![(0xd800 + q) as u16, (0xdc00 + r) as u16]);
            assert(q * 0x400 + r == v - 0x10000);
            assert(q < 0x400);
            assert(u.skip(2) =~= utf16(rest));
        }
        assert(s.map_values(|c: char| c as u32) =~= seq![v] + rest.map_values(|c: char| c as u32));
    } else {
        assert(utf16(s) =~= Seq::<u16>::empty());
        assert(s.map_values(|c: char| c as u32) =~= Seq::<u32>::empty());
    }
}

/// The encoded command reads back: its bytes are the script's UTF-16 code
/// units, low byte first, and those units stand for exactly the script's
/// characters, supplementary ones as surrogate pairs.
pub proof fn lemma_utf16le_reads_back(script: Seq<char>)
    ensures
        units_of(little_endian(utf16(script))) == utf16(script),
        code_points(utf16(script)) == script.map_values(|c: char| c as u32),
{
    lemma_units_of(utf16(script));
    lemma_code_points(script);
}

} // verus!
