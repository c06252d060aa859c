//! Character-level text handling: line splitting, trimming and byte lengths,
//! each with the meaning the standard library gives it for `str`.
use vstd::prelude::*;

verus! {

// ---------------------------------------------------------------------------
// Specifications
// ---------------------------------------------------------------------------

/// Unicode `White_Space`, the set `char::is_whitespace` tests for.
pub open spec fn is_ws(c: char) -> bool {
    let u = c as u32;
    (0x9 <= u && u <= 0xD) || u == 0x20 || u == 0x85 || u == 0xA0 || u == 0x1680 || (0x2000 <= u
        && u <= 0x200A) || u == 0x2028 || u == 0x2029 || u == 0x202F || u == 0x205F || u == 0x3000
}

/// `s` without its leading whitespace.
pub open spec fn trim_start(s: Seq<char>) -> Seq<char>
    decreases s.len(),
{
    if s.len() > 0 && is_ws(s[0]) {
        trim_start(s.drop_first())
    } else {
        s
    }
}

/// `s` without its trailing whitespace.
pub open spec fn trim_end(s: Seq<char>) -> Seq<char>
    decreases s.len(),
{
    if s.len() > 0 && is_ws(s.last()) {
        trim_end(s.drop_last())
    } else {
        s
    }
}

/// `s` without whitespace at either end.
pub open spec fn trim(s: Seq<char>) -> Seq<char> {
    trim_end(trim_start(s))
}

/// Whether `s` holds nothing but whitespace.
pub open spec fn is_blank(s: Seq<char>) -> bool {
    forall|i: int| 0 <= i < s.len() ==> #[trigger] is_ws(s[i])
}

/// Bytes that `c` takes in UTF-8.
pub open spec fn char_width(c: char) -> nat {
    let u = c as u32;
    if u < 0x80 {
        1
    } else if u < 0x800 {
        2
    } else if u < 0x10000 {
        3
    } else {
        4
    }
}

/// Bytes that `s` takes in UTF-8, which is what `str::len` counts.
pub open spec fn utf8_len(s: Seq<char>) -> nat
    decreases s.len(),
{
    if s.len() == 0 {
        0
    } else {
        utf8_len(s.drop_last()) + char_width(s.last())
    }
}

/// Whether `s` begins with `p`.
pub open spec fn has_prefix(s: Seq<char>, p: Seq<char>) -> bool {
    p.len() <= s.len() && s.subrange(0, p.len() as int) == p
}

/// A line as `str::lines` hands it out: one trailing carriage return, left by a
/// `\r\n` ending, is dropped.
pub open spec fn strip_cr(l: Seq<char>) -> Seq<char> {
    if l.len() > 0 && l.last() == '\r' {
        l.drop_last()
    } else {
        l
    }
}

/// The lines of `cur + s`, where `cur` is the part of the current line already
/// read.
pub open spec fn lines_from(s: Seq<char>, cur: Seq<char>) -> Seq<Seq<char>>
    decreases s.len(),
{
    if s.len() == 0 {
        if cur.len() == 0 {
            seq![]
        } else {
            seq![cur]
        }
    } else if s[0] == '\n' {
        seq![strip_cr(cur)] + lines_from(s.drop_first(), seq![])
    } else {
        lines_from(s.drop_first(), cur.push(s[0]))
    }
}

/// The lines of `s`, as `str::lines` yields them: split at `\n`, a `\r` before
/// it dropped, and no empty line after a final line ending.
pub open spec fn lines_of(s: Seq<char>) -> Seq<Seq<char>> {
    lines_from(s, seq![])
}

/// `ls` joined with `\n` between consecutive lines, as `[&str]::join("\n")`.
pub open spec fn join_lines(ls: Seq<Seq<char>>) -> Seq<char>
    decreases ls.len(),
{
    if ls.len() == 0 {
        seq![]
    } else if ls.len() == 1 {
        ls[0]
    } else {
        join_lines(ls.drop_last()) + seq!['\n'] + ls.last()
    }
}

// ---------------------------------------------------------------------------
// Conversions
// ---------------------------------------------------------------------------

/// The characters of `s`, in order.
pub fn chars_of(s: &str) -> (out: Vec<char>)
    ensures
        out@ == s@,
{
    let mut out: Vec<char> = Vec::new();
    for c in it: s.chars()
        invariant
            it.seq() == s@,
            out@ == s@.take(it.index() as int),
    {
        out.push(c);
    }
    out
}

/// Appends `c` to `s` (`String::push`).
#[verifier::external_body]
pub(crate) fn push_char(s: &mut String, c: char)
    ensures
        final(s)@ == old(s)@.push(c),
{
    s.push(c);
}

/// A `String` holding the characters of `cs`.
pub fn string_of(cs: &[char]) -> (out: String)
    ensures
        out@ == cs@,
{
    let mut out = String::new();
    let mut i: usize = 0;
    while i < cs.len()
        invariant
            i <= cs.len(),
            out@ == cs@.take(i as int),
        decreases cs.len() - i,
    {
        push_char(&mut out, cs[i]);
        i = i + 1;
        assert(out@ =~= cs@.take(i as int));
    }
    assert(cs@.take(cs.len() as int) =~= cs@);
    out
}

/// Appends the characters of `p` to `out`.
pub fn extend_with_str(out: &mut Vec<char>, p: &str)
    ensures
        final(out)@ == old(out)@ + p@,
{
    let pc = chars_of(p);
    let mut i: usize = 0;
    while i < pc.len()
        invariant
            i <= pc.len(),
            pc@ == p@,
            out@ == old(out)@ + p@.take(i as int),
        decreases pc.len() - i,
    {
        out.push(pc[i]);
        i = i + 1;
        assert(out@ =~= old(out)@ + p@.take(i as int));
    }
    assert(p@.take(pc.len() as int) =~= p@);
}

/// Appends the characters of `cs` to `out`.
pub fn extend_with_chars(out: &mut Vec<char>, cs: &[char])
    ensures
        final(out)@ == old(out)@ + cs@,
{
    let mut i: usize = 0;
    while i < cs.len()
        invariant
            i <= cs.len(),
            out@ == old(out)@ + cs@.take(i as int),
        decreases cs.len() - i,
    {
        out.push(cs[i]);
        i = i + 1;
        assert(out@ =~= old(out)@ + cs@.take(i as int));
    }
    assert(cs@.take(cs.len() as int) =~= cs@);
}

// ---------------------------------------------------------------------------
// Character tests
// ---------------------------------------------------------------------------

/// `char::is_whitespace`.
pub fn is_whitespace(c: char) -> (r: bool)
    ensures
        r == is_ws(c),
{
    let u = c as u32;
    (0x9 <= u && u <= 0xD) || u == 0x20 || u == 0x85 || u == 0xA0 || u == 0x1680 || (0x2000 <= u
        && u <= 0x200A) || u == 0x2028 || u == 0x2029 || u == 0x202F || u == 0x205F || u == 0x3000
}

/// `char::len_utf8`.
pub fn char_len_utf8(c: char) -> (r: usize)
    ensures
        r == char_width(c),
{
    let u = c as u32;
    if u < 0x80 {
        1
    } else if u < 0x800 {
        2
    } else if u < 0x10000 {
        3
    } else {
        4
    }
}

/// `n` as a `usize`, or `usize::MAX` where it does not fit.
pub open spec fn saturate(n: nat) -> usize {
    if n <= usize::MAX {
        n as usize
    } else {
        usize::MAX
    }
}

/// The UTF-8 length of `s.subrange(from, to)`, saturated at `usize::MAX`.
pub fn utf8_len_in(s: &[char], from: usize, to: usize) -> (r: usize)
    requires
        from <= to <= s.len(),
    ensures
        r == saturate(utf8_len(s@.subrange(from as int, to as int))),
{
    let ghost t = s@.subrange(from as int, to as int);
    let mut acc: usize = 0;
    let mut i: usize = from;
    assert(t.take(0) =~= seq![]);
    while i < to
        invariant
            from <= i <= to <= s.len(),
            t == s@.subrange(from as int, to as int),
            acc == saturate(utf8_len(t.take(i - from))),
        decreases to - i,
    {
        let w = char_len_utf8(s[i]);
        assert(t.take(i + 1 - from).drop_last() =~= t.take(i - from));
        acc = acc.saturating_add(w);
        i = i + 1;
    }
    assert(t.take(to - from) =~= t);
    acc
}

/// Whether `s.subrange(from, to)` begins with the characters of `p`.
pub fn starts_with_in(s: &[char], from: usize, to: usize, p: &str) -> (r: bool)
    requires
        from <= to <= s.len(),
    ensures
        r == has_prefix(s@.subrange(from as int, to as int), p@),
{
    let ghost t = s@.subrange(from as int, to as int);
    let pc = chars_of(p);
    if pc.len() > to - from {
        return false;
    }
    let mut i: usize = 0;
    while i < pc.len()
        invariant
            i <= pc.len() <= to - from,
            from <= to <= s.len(),
            t == s@.subrange(from as int, to as int),
            pc@ == p@,
            t.subrange(0, i as int) == p@.subrange(0, i as int),
        decreases pc.len() - i,
    {
        if s[from + i] != pc[i] {
            assert(t.subrange(0, p@.len() as int)[i as int] != p@[i as int]);
            return false;
        }
        i = i + 1;
        assert(t.subrange(0, i as int) =~= p@.subrange(0, i as int));
    }
    assert(p@.subrange(0, p@.len() as int) =~= p@);
    true
}

/// Whether `s` begins with the characters of `p`.
pub fn starts_with(s: &[char], p: &str) -> (r: bool)
    ensures
        r == has_prefix(s@, p@),
{
    assert(s@.subrange(0, s@.len() as int) =~= s@);
    starts_with_in(s, 0, s.len(), p)
}

// ---------------------------------------------------------------------------
// Trimming
// ---------------------------------------------------------------------------

proof fn lemma_trim_start_skip(s: Seq<char>, k: int)
    requires
        0 <= k < s.len(),
        is_ws(s[k]),
    ensures
        trim_start(s.skip(k)) == trim_start(s.skip(k + 1)),
{
    assert(s.skip(k).drop_first() =~= s.skip(k + 1));
}

proof fn lemma_trim_end_take(s: Seq<char>, e: int)
    requires
        0 < e <= s.len(),
        is_ws(s[e - 1]),
    ensures
        trim_end(s.take(e)) == trim_end(s.take(e - 1)),
{
    assert(s.take(e).drop_last() =~= s.take(e - 1));
}

/// Where `s.subrange(from, to)` starts once its leading whitespace is dropped.
pub fn trim_start_in(s: &[char], from: usize, to: usize) -> (k: usize)
    requires
        from <= to <= s.len(),
    ensures
        from <= k <= to,
        s@.subrange(k as int, to as int) == trim_start(s@.subrange(from as int, to as int)),
{
    let ghost t = s@.subrange(from as int, to as int);
    let mut k: usize = from;
    assert(t.skip(0) =~= t);
    while k < to && is_whitespace(s[k])
        invariant
            from <= k <= to <= s.len(),
            t == s@.subrange(from as int, to as int),
            trim_start(t.skip(k - from)) == trim_start(t),
        decreases to - k,
    {
        proof {
            lemma_trim_start_skip(t, k - from);
        }
        k = k + 1;
    }
    assert(t.skip(k - from) =~= s@.subrange(k as int, to as int));
    k
}

/// Where `s.subrange(from, to)` ends once its trailing whitespace is dropped.
pub fn trim_end_in(s: &[char], from: usize, to: usize) -> (e: usize)
    requires
        from <= to <= s.len(),
    ensures
        from <= e <= to,
        s@.subrange(from as int, e as int) == trim_end(s@.subrange(from as int, to as int)),
{
    let ghost t = s@.subrange(from as int, to as int);
    let mut e: usize = to;
    assert(t.take((e - from) as int) =~= t);
    while e > from && is_whitespace(s[e - 1])
        invariant
            from <= e <= to <= s.len(),
            t == s@.subrange(from as int, to as int),
            trim_end(t.take((e - from) as int)) == trim_end(t),
        decreases e,
    {
        proof {
            lemma_trim_end_take(t, (e - from) as int);
        }
        e = e - 1;
    }
    assert(t.take((e - from) as int) =~= s@.subrange(from as int, e as int));
    e
}

/// The bounds of `s` once whitespace at both ends is dropped.
pub fn trim_bounds(s: &[char]) -> (r: (usize, usize))
    ensures
        r.0 <= r.1 <= s.len(),
        s@.subrange(r.0 as int, r.1 as int) == trim(s@),
{
    assert(s@.subrange(0, s@.len() as int) =~= s@);
    let a = trim_start_in(s, 0, s.len());
    let e = trim_end_in(s, a, s.len());
    (a, e)
}

/// Whether `s.subrange(from, to)` is all whitespace.
pub fn is_blank_in(s: &[char], from: usize, to: usize) -> (r: bool)
    requires
        from <= to <= s.len(),
    ensures
        r == is_blank(s@.subrange(from as int, to as int)),
{
    let mut k: usize = from;
    while k < to
        invariant
            from <= k <= to <= s.len(),
            forall|i: int| from <= i < k ==> is_ws(#[trigger] s@[i]),
        decreases to - k,
    {
        if !is_whitespace(s[k]) {
            assert(!is_ws(s@.subrange(from as int, to as int)[k - from]));
            return false;
        }
        k = k + 1;
    }
    assert forall|i: int| 0 <= i < to - from implies #[trigger] is_ws(
        s@.subrange(from as int, to as int)[i],
    ) by {
        assert(s@.subrange(from as int, to as int)[i] == s@[from + i]);
    }
    true
}

// ---------------------------------------------------------------------------
// Lines
// ---------------------------------------------------------------------------

/// Reading up to the first line ending of `s` completes the current line.
pub proof fn lemma_lines_from_segment(s: Seq<char>, cur: Seq<char>, m: int)
    requires
        0 <= m < s.len(),
        s[m] == '\n',
        forall|k: int| 0 <= k < m ==> s[k] != '\n',
    ensures
        lines_from(s, cur) == seq![strip_cr(cur + s.take(m))] + lines_from(s.skip(m + 1), seq![]),
    decreases m,
{
    if m == 0 {
        assert(cur + s.take(0) =~= cur);
        assert(s.drop_first() =~= s.skip(1));
    } else {
        lemma_lines_from_segment(s.drop_first(), cur.push(s[0]), m - 1);
        assert(cur.push(s[0]) + s.drop_first().take(m - 1) =~= cur + s.take(m));
        assert(s.drop_first().skip(m) =~= s.skip(m + 1));
    }
}

/// Text with no line ending left is the last line, if it holds anything.
pub proof fn lemma_lines_from_last(s: Seq<char>, cur: Seq<char>)
    requires
        forall|k: int| 0 <= k < s.len() ==> s[k] != '\n',
    ensures
        lines_from(s, cur) == if (cur + s).len() == 0 {
            seq![]
        } else {
            seq![cur + s]
        },
    decreases s.len(),
{
    if s.len() == 0 {
        assert(cur + s =~= cur);
    } else {
        lemma_lines_from_last(s.drop_first(), cur.push(s[0]));
        assert(cur.push(s[0]) + s.drop_first() =~= cur + s);
    }
}

/// `strip_cr` on a vector.
fn strip_cr_in_place(l: &mut Vec<char>)
    ensures
        final(l)@ == strip_cr(old(l)@),
{
    if l.len() > 0 && l[l.len() - 1] == '\r' {
        l.pop();
        assert(l@ =~= old(l)@.drop_last());
    }
}

/// The lines of `s`, as `str::lines` yields them.
pub fn split_lines(s: &[char]) -> (out: Vec<Vec<char>>)
    ensures
        out.deep_view() == lines_of(s@),
{
    let mut out: Vec<Vec<char>> = Vec::new();
    let mut cur: Vec<char> = Vec::new();
    let mut i: usize = 0;
    assert(s@.skip(0) =~= s@);
    while i < s.len()
        invariant
            i <= s.len(),
            lines_of(s@) == out.deep_view() + lines_from(s@.skip(i as int), cur@),
        decreases s.len() - i,
    {
        let ghost rest = s@.skip(i as int);
        assert(rest.drop_first() =~= s@.skip(i + 1));
        assert(rest[0] == s@[i as int]);
        if s[i] == '\n' {
            let ghost before = out.deep_view();
            let mut line = cur;
            strip_cr_in_place(&mut line);
            assert(line.deep_view() =~= line@);
            out.push(line);
            assert(out.deep_view() =~= before.push(strip_cr(cur@)));
            assert(before + lines_from(rest, cur@) =~= out.deep_view() + lines_from(
                s@.skip(i + 1),
                seq![],
            ));
            cur = Vec::new();
            assert(cur@ =~= seq![]);
        } else {
            cur.push(s[i]);
        }
        i = i + 1;
    }
    if cur.len() > 0 {
        let ghost before = out.deep_view();
        assert(cur.deep_view() =~= cur@);
        out.push(cur);
        assert(out.deep_view() =~= before.push(cur@));
    } else {
        assert(out.deep_view() + lines_from(s@.skip(i as int), cur@) =~= out.deep_view());
    }
    out
}

/// `lines[from..to].join("\n")`.
pub fn join_range(lines: &Vec<Vec<char>>, from: usize, to: usize) -> (out: Vec<char>)
    requires
        from <= to <= lines.len(),
    ensures
        out@ == join_lines(lines.deep_view().subrange(from as int, to as int)),
{
    let ghost ls = lines.deep_view();
    let mut out: Vec<char> = Vec::new();
    let mut k: usize = from;
    assert(ls.subrange(from as int, from as int) =~= seq![]);
    while k < to
        invariant
            from <= k <= to <= lines.len(),
            ls == lines.deep_view(),
            out@ == join_lines(ls.subrange(from as int, k as int)),
        decreases to - k,
    {
        let ghost prev = ls.subrange(from as int, k as int);
        let ghost next = ls.subrange(from as int, k + 1);
        assert(next.drop_last() =~= prev);
        assert(next.last() == ls[k as int]);
        assert(lines[k as int]@ == ls[k as int]);
        if k > from {
            out.push('\n');
        } else {
            assert(next.len() == 1);
        }
        extend_with_chars(&mut out, lines[k].as_slice());
        k = k + 1;
        assert(out@ =~= join_lines(next));
    }
    out
}

// ---------------------------------------------------------------------------
// Numbers, case and comparison
// ---------------------------------------------------------------------------

/// The decimal digit for `d`.
pub open spec fn digit_char(d: nat) -> char {
    (('0' as u32) + d) as char
}

/// `n` written in decimal, as `{}` formats an unsigned integer.
pub open spec fn decimal(n: nat) -> Seq<char>
    decreases n,
{
    if n < 10 {
        seq![digit_char(n)]
    } else {
        decimal(n / 10).push(digit_char(n % 10))
    }
}

/// `n` written in decimal.
pub fn decimal_string(n: u64) -> (out: String)
    ensures
        out@ == decimal(n as nat),
{
    // Digits come out least significant first, so collect them and reverse.
    let mut rev: Vec<char> = Vec::new();
    let mut m: u64 = n;
    let ghost mut done: Seq<char> = seq![];
    while m >= 10
        invariant
            decimal(n as nat) == decimal(m as nat) + done,
            forall|i: int| 0 <= i < done.len() ==> done[i] == rev@[rev@.len() - 1 - i],
            rev@.len() == done.len(),
        decreases m,
    {
        let c = char_from_digit(m % 10);
        rev.push(c);
        proof {
            assert(decimal(m as nat) == decimal((m / 10) as nat).push(digit_char((m % 10) as nat)));
            assert(decimal(m as nat) + done =~= decimal((m / 10) as nat) + (seq![c] + done));
            done = seq![c] + done;
        }
        m = m / 10;
    }
    let c = char_from_digit(m);
    rev.push(c);
    proof {
        assert(decimal(m as nat) + done =~= seq![c] + done);
        done = seq![c] + done;
    }
    let mut out = String::new();
    let mut i: usize = rev.len();
    while i > 0
        invariant
            i <= rev@.len() == done.len(),
            forall|k: int| 0 <= k < done.len() ==> done[k] == rev@[rev@.len() - 1 - k],
            out@ == done.take(rev@.len() - i),
        decreases i,
    {
        i = i - 1;
        push_char(&mut out, rev[i]);
        assert(out@ =~= done.take(rev@.len() - i));
    }
    assert(done.take(rev@.len() as int) =~= done);
    out
}

/// The digit character for `d < 10`.
fn char_from_digit(d: u64) -> (c: char)
    requires
        d < 10,
    ensures
        c == digit_char(d as nat),
{
    if d == 0 {
        '0'
    } else if d == 1 {
        '1'
    } else if d == 2 {
        '2'
    } else if d == 3 {
        '3'
    } else if d == 4 {
        '4'
    } else if d == 5 {
        '5'
    } else if d == 6 {
        '6'
    } else if d == 7 {
        '7'
    } else if d == 8 {
        '8'
    } else {
        '9'
    }
}

/// `c` with ASCII upper case mapped to lower case, as `to_ascii_lowercase`.
pub open spec fn ascii_lower(c: char) -> char {
    if 'A' <= c && c <= 'Z' {
        ((c as u32) + 32) as char
    } else {
        c
    }
}

/// `s` with ASCII upper case mapped to lower case.
pub open spec fn ascii_lower_seq(s: Seq<char>) -> Seq<char> {
    s.map_values(|c: char| ascii_lower(c))
}

/// `char::to_ascii_lowercase`.
pub fn to_ascii_lower(c: char) -> (r: char)
    ensures
        r == ascii_lower(c),
{
    if 'A' <= c && c <= 'Z' {
        let u = (c as u32) + 32;
        char_from_ascii_lower(u)
    } else {
        c
    }
}

/// The lower-case letter whose code is `u`.
fn char_from_ascii_lower(u: u32) -> (c: char)
    requires
        ('a' as u32) <= u <= ('z' as u32),
    ensures
        c == u as char,
{
    let chars = ['a', 'b', 'c', 'd', 'e', 'f', 'g', 'h', 'i', 'j', 'k', 'l', 'm', 'n', 'o', 'p', 'q',
        'r', 's', 't', 'u', 'v', 'w', 'x', 'y', 'z'];
    let c = chars[(u - 97) as usize];
    assert(chars@[(u - 97) as int] == u as char);
    c
}

/// Whether `a` and `b` hold the same characters.
pub fn chars_eq(a: &[char], b: &[char]) -> (r: bool)
    ensures
        r == (a@ == b@),
{
    if a.len() != b.len() {
        return false;
    }
    let mut i: usize = 0;
    while i < a.len()
        invariant
            i <= a.len() == b.len(),
            a@.take(i as int) == b@.take(i as int),
        decreases a.len() - i,
    {
        if a[i] != b[i] {
            assert(a@.take(i + 1)[i as int] != b@.take(i + 1)[i as int]);
            return false;
        }
        i = i + 1;
        assert(a@.take(i as int) =~= b@.take(i as int));
    }
    assert(a@ =~= a@.take(a.len() as int));
    assert(b@ =~= b@.take(b.len() as int));
    true
}

/// Whether `a` and `b` hold the same characters.
pub fn str_eq(a: &str, b: &str) -> (r: bool)
    ensures
        r == (a@ == b@),
{
    let x = chars_of(a);
    let y = chars_of(b);
    chars_eq(x.as_slice(), y.as_slice())
}

// ---------------------------------------------------------------------------
// Agreement with the UTF-8 encoding
// ---------------------------------------------------------------------------

proof fn lemma_encode_len_append(a: Seq<char>, b: Seq<char>)
    ensures
        vstd::utf8::encode_utf8(a + b).len() == vstd::utf8::encode_utf8(a).len()
            + vstd::utf8::encode_utf8(b).len(),
    decreases a.len(),
{
    if a.len() > 0 {
        lemma_encode_len_append(a.drop_first(), b);
        assert((a + b).drop_first() =~= a.drop_first() + b);
        assert((a + b)[0] == a[0]);
    } else {
        assert(a + b =~= b);
    }
}

/// `utf8_len` counts exactly the bytes of the UTF-8 encoding, which is what
/// `str::len` returns.
pub proof fn lemma_utf8_len_is_encoded_len(s: Seq<char>)
    ensures
        utf8_len(s) == vstd::utf8::encode_utf8(s).len(),
    decreases s.len(),
{
    if s.len() > 0 {
        lemma_utf8_len_is_encoded_len(s.drop_last());
        lemma_encode_len_append(s.drop_last(), seq![s.last()]);
        assert(s.drop_last() + seq![s.last()] =~= s);
        let c = s.last();
        assert(seq![c].drop_first() =~= Seq::<char>::empty());
        assert(vstd::utf8::encode_utf8(seq![c]) == vstd::utf8::encode_scalar(c as u32)
            + vstd::utf8::encode_utf8(Seq::<char>::empty()));
        vstd::utf8::char_is_scalar(c);
        assert(vstd::utf8::encode_utf8(seq![c]).len() == char_width(c));
    }
}

proof fn lemma_final_ending(s: Seq<char>, cur: Seq<char>)
    requires
        (cur + s).len() > 0,
        (cur + s).last() != '\r',
        (cur + s).last() != '\n',
    ensures
        lines_from(s.push('\n'), cur) == lines_from(s, cur),
    decreases s.len(),
{
    if s.len() == 0 {
        assert(cur + s =~= cur);
        assert(seq!['\n'].drop_first() =~= Seq::<char>::empty());
        assert(s.push('\n') =~= seq!['\n']);
        assert(strip_cr(cur) == cur);
        assert(lines_from(seq!['\n'], cur) == seq![strip_cr(cur)] + lines_from(
            Seq::<char>::empty(),
            seq![],
        ));
        assert(lines_from(Seq::<char>::empty(), Seq::<char>::empty()) =~= Seq::<Seq<char>>::empty());
        assert(lines_from(s, cur) == seq![cur]);
        assert(seq![cur] + Seq::<Seq<char>>::empty() =~= seq![cur]);
    } else {
        assert(s.push('\n').drop_first() =~= s.drop_first().push('\n'));
        assert(s.push('\n')[0] == s[0]);
        if s[0] == '\n' {
            assert(s.len() > 1) by {
                assert((cur + s).last() == s.last());
            }
            assert((seq![] + s.drop_first()) =~= s.drop_first());
            assert(s.drop_first().last() == s.last());
            assert((cur + s).last() == s.last());
            lemma_final_ending(s.drop_first(), seq![]);
            assert(lines_from(s.push('\n'), cur) == seq![strip_cr(cur)] + lines_from(
                s.push('\n').drop_first(),
                seq![],
            ));
        } else {
            assert(cur.push(s[0]) + s.drop_first() =~= cur + s);
            lemma_final_ending(s.drop_first(), cur.push(s[0]));
            assert(lines_from(s.push('\n'), cur) == lines_from(
                s.push('\n').drop_first(),
                cur.push(s[0]),
            ));
        }
    }
}

/// The final line ending is optional: a text that ends with one has the
/// same lines as the text without it, unless what is left would itself end
/// in a line ending or a carriage return.
pub proof fn law_final_line_ending_is_optional(s: Seq<char>)
    requires
        s.len() > 0,
        s.last() != '\n',
        s.last() != '\r',
    ensures
        lines_of(s.push('\n')) == lines_of(s),
{
    assert(seq![] + s =~= s);
    lemma_final_ending(s, seq![]);
}

} // verus!
