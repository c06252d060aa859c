//! Hand-parsed command-line flags: which flag an argument names, whether a
//! flag is present, and the help text that documents them.
use vstd::prelude::*;

use crate::text::{
    chars_eq, chars_of, is_whitespace, is_ws, push_char, string_of, utf8_len, utf8_len_in,
};

verus! {

/// The flags one subcommand accepts, as `(spec, description)`, where `spec` is
/// the flag and any aliases exactly as help should show them: `"--today, -d"`.
///
/// Both the help printer and the argument check read this one list, so a flag
/// cannot be accepted without being documented or documented without being
/// accepted.
pub type Flags = &'static [(&'static str, &'static str)];

/// The trailing entry every subcommand shares.
pub const HELP_FLAG: (&'static str, &'static str) = ("--help, -h", "Show this help message");

/// The part of `a` before its first `=`, or all of it.
pub open spec fn name_part(a: Seq<char>) -> Seq<char>
    decreases a.len(),
{
    if a.len() == 0 || a[0] == '=' {
        seq![]
    } else {
        seq![a[0]] + name_part(a.drop_first())
    }
}

/// Where the name part of `a` ends.
fn name_end(a: &[char]) -> (k: usize)
    ensures
        k <= a.len(),
        a@.take(k as int) == name_part(a@),
{
    let mut k: usize = 0;
    while k < a.len() && a[k] != '='
        invariant
            k <= a.len(),
            forall|i: int| 0 <= i < k ==> a@[i] != '=',
        decreases a.len() - k,
    {
        k = k + 1;
    }
    proof {
        lemma_name_part(a@, k as int);
    }
    k
}

proof fn lemma_name_part(a: Seq<char>, k: int)
    requires
        0 <= k <= a.len(),
        k == a.len() || a[k] == '=',
        forall|i: int| 0 <= i < k ==> a[i] != '=',
    ensures
        a.take(k) == name_part(a),
    decreases k,
{
    if k > 0 {
        lemma_name_part(a.drop_first(), k - 1);
        assert(a.take(k) =~= seq![a[0]] + a.drop_first().take(k - 1));
    } else {
        assert(a.take(0) =~= seq![]);
    }
}

/// The flag an argument names, ignoring any `=value` attached to it.
///
/// `check_flags` accepts `--flag=value` and validates the name alone, so every
/// consumer that then compares the whole argument silently stops routing it.
/// One function so the accepted form and the routed form cannot disagree.
pub fn flag_name(arg: &str) -> (r: &str)
    ensures
        r@ == name_part(arg@),
{
    let cs = chars_of(arg);
    let k = name_end(cs.as_slice());
    arg.substring_char(0, k)
}

/// Whether an argument in `args` names `flag`.
pub open spec fn names_flag(args: Seq<String>, flag: Seq<char>) -> bool {
    exists|i: int| 0 <= i < args.len() && name_part(#[trigger] args[i]@) == flag
}

/// Is this flag present, in either accepted spelling (`--flag` or
/// `--flag=value`)?
pub fn has_flag(args: &[String], flag: &str) -> (r: bool)
    ensures
        r == names_flag(args@, flag@),
{
    let f = chars_of(flag);
    let mut i: usize = 0;
    while i < args.len()
        invariant
            i <= args.len(),
            f@ == flag@,
            forall|k: int| 0 <= k < i ==> name_part(#[trigger] args@[k]@) != flag@,
        decreases args.len() - i,
    {
        let a = chars_of(args[i].as_str());
        let k = name_end(a.as_slice());
        let mut name: Vec<char> = a;
        name.truncate(k);
        if chars_eq(name.as_slice(), f.as_slice()) {
            assert(name_part(args@[i as int]@) == flag@);
            return true;
        }
        i = i + 1;
    }
    false
}

/// Is any of these spellings present? For a flag that grew alternatives.
pub fn has_any(args: &[String], flags: &[&str]) -> (r: bool)
    ensures
        r == exists|j: int| 0 <= j < flags.len() && names_flag(args@, (#[trigger] flags@[j])@),
{
    let mut j: usize = 0;
    while j < flags.len()
        invariant
            j <= flags.len(),
            forall|q: int| 0 <= q < j ==> !names_flag(args@, (#[trigger] flags@[q])@),
        decreases flags.len() - j,
    {
        if has_flag(args, flags[j]) {
            return true;
        }
        j = j + 1;
    }
    false
}

/// Whether the caller asked for help: `--help`, `-h` or `help` as the first
/// argument to the subcommand (the third of `args`), and nowhere else, so a
/// payload that mentions help is still a payload.
pub open spec fn asks_for_help(args: Seq<String>) -> bool {
    args.len() > 2 && (args[2]@ == "--help"@ || args[2]@ == "-h"@ || args[2]@ == "help"@)
}

/// Did the caller ask for help?
///
/// `--help`, `-h`, or `help` as the **first argument to the subcommand**.
/// Position is what separates the subcommand from its payload.
pub fn wants_help(args: &[String]) -> (r: bool)
    ensures
        r == asks_for_help(args@),
{
    if args.len() <= 2 {
        return false;
    }
    let a = chars_of(args[2].as_str());
    let long = chars_of("--help");
    let short = chars_of("-h");
    let word = chars_of("help");
    chars_eq(a.as_slice(), long.as_slice()) || chars_eq(a.as_slice(), short.as_slice())
        || chars_eq(a.as_slice(), word.as_slice())
}

/// `w` box-drawing dashes.
pub open spec fn dashes(w: nat) -> Seq<char> {
    Seq::new(w, |i: int| '─')
}

/// One group of dashes per width, separated by single spaces.
pub open spec fn rule_of(widths: Seq<usize>) -> Seq<char>
    decreases widths.len(),
{
    if widths.len() == 0 {
        seq![]
    } else if widths.len() == 1 {
        dashes(widths[0] as nat)
    } else {
        rule_of(widths.drop_last()) + seq![' '] + dashes(widths.last() as nat)
    }
}

/// A column separator built from the widths it sits under, so a header and its
/// rule cannot disagree.
pub fn column_rule(widths: &[usize]) -> (r: String)
    ensures
        r@ == rule_of(widths@),
{
    let mut out = String::new();
    let mut k: usize = 0;
    assert(widths@.take(0) =~= seq![]);
    while k < widths.len()
        invariant
            k <= widths.len(),
            out@ == rule_of(widths@.take(k as int)),
        decreases widths.len() - k,
    {
        let ghost prev = out@;
        assert(widths@.take(k + 1).drop_last() =~= widths@.take(k as int));
        if k > 0 {
            push_char(&mut out, ' ');
        }
        let w = widths[k];
        let mut d: usize = 0;
        while d < w
            invariant
                d <= w,
                out@ == (if k > 0 {
                    prev + seq![' ']
                } else {
                    prev
                }) + dashes(d as nat),
            decreases w - d,
        {
            push_char(&mut out, '─');
            d = d + 1;
            assert(out@ =~= (if k > 0 {
                prev + seq![' ']
            } else {
                prev
            }) + dashes(d as nat));
        }
        k = k + 1;
        assert(out@ =~= rule_of(widths@.take(k as int)));
    }
    assert(widths@.take(widths.len() as int) =~= widths@);
    out
}

/// The words of `part`: a split at whitespace, empty pieces dropped; only the
/// first one matters here, so this gives it, or nothing.
pub open spec fn first_word(part: Seq<char>) -> Seq<char>
    decreases part.len(),
{
    if part.len() == 0 {
        seq![]
    } else if is_ws(part[0]) {
        first_word(part.drop_first())
    } else {
        word_prefix(part)
    }
}

/// The run of non-whitespace characters at the front of `s`.
pub open spec fn word_prefix(s: Seq<char>) -> Seq<char>
    decreases s.len(),
{
    if s.len() == 0 || is_ws(s[0]) {
        seq![]
    } else {
        seq![s[0]] + word_prefix(s.drop_first())
    }
}

/// The pieces of `s` between commas, for the comma-separated piece that began
/// with `cur`.
pub open spec fn comma_parts_from(s: Seq<char>, cur: Seq<char>) -> Seq<Seq<char>>
    decreases s.len(),
{
    if s.len() == 0 {
        seq![cur]
    } else if s[0] == ',' {
        seq![cur] + comma_parts_from(s.drop_first(), seq![])
    } else {
        comma_parts_from(s.drop_first(), cur.push(s[0]))
    }
}

/// The first word of each comma-separated piece of `spec`, pieces without a
/// word dropped.
pub open spec fn aliases_of_parts(parts: Seq<Seq<char>>) -> Seq<Seq<char>>
    decreases parts.len(),
{
    if parts.len() == 0 {
        seq![]
    } else {
        let w = first_word(parts[0]);
        (if w.len() > 0 {
            seq![w]
        } else {
            seq![]
        }) + aliases_of_parts(parts.drop_first())
    }
}

/// The individual flags of a `(spec, _)` entry, with any value placeholder
/// dropped: `"--today, -d"` gives `--today`, `-d`; `"--validate <file.toml>"`
/// gives `--validate`.
pub open spec fn aliases_spec(spec: Seq<char>) -> Seq<Seq<char>> {
    aliases_of_parts(comma_parts_from(spec, seq![]))
}

proof fn lemma_first_word_at(part: Seq<char>, k: int, e: int)
    requires
        0 <= k <= e <= part.len(),
        forall|i: int| 0 <= i < k ==> is_ws(part[i]),
        k == part.len() || !is_ws(part[k]),
        forall|i: int| k <= i < e ==> !is_ws(part[i]),
        e == part.len() || is_ws(part[e]),
    ensures
        first_word(part) == part.subrange(k, e),
    decreases k,
{
    if k > 0 {
        lemma_first_word_at(part.drop_first(), k - 1, e - 1);
        assert(part.drop_first().subrange(k - 1, e - 1) =~= part.subrange(k, e));
    } else if part.len() > 0 {
        lemma_word_prefix(part, e);
    }
}

proof fn lemma_word_prefix(s: Seq<char>, e: int)
    requires
        0 <= e <= s.len(),
        forall|i: int| 0 <= i < e ==> !is_ws(s[i]),
        e == s.len() || is_ws(s[e]),
    ensures
        word_prefix(s) == s.subrange(0, e),
    decreases e,
{
    if e > 0 {
        lemma_word_prefix(s.drop_first(), e - 1);
        assert(s.subrange(0, e) =~= seq![s[0]] + s.drop_first().subrange(0, e - 1));
    } else {
        assert(s.subrange(0, 0) =~= seq![]);
    }
}

proof fn lemma_comma_parts_split(s: Seq<char>, cur: Seq<char>, m: int)
    requires
        0 <= m < s.len(),
        s[m] == ',',
        forall|k: int| 0 <= k < m ==> s[k] != ',',
    ensures
        comma_parts_from(s, cur) == seq![cur + s.take(m)] + comma_parts_from(s.skip(m + 1), seq![]),
    decreases m,
{
    if m == 0 {
        assert(cur + s.take(0) =~= cur);
        assert(s.drop_first() =~= s.skip(1));
    } else {
        lemma_comma_parts_split(s.drop_first(), cur.push(s[0]), m - 1);
        assert(cur.push(s[0]) + s.drop_first().take(m - 1) =~= cur + s.take(m));
        assert(s.drop_first().skip(m) =~= s.skip(m + 1));
    }
}

proof fn lemma_comma_parts_last(s: Seq<char>, cur: Seq<char>)
    requires
        forall|k: int| 0 <= k < s.len() ==> s[k] != ',',
    ensures
        comma_parts_from(s, cur) == seq![cur + s],
    decreases s.len(),
{
    if s.len() == 0 {
        assert(cur + s =~= cur);
    } else {
        lemma_comma_parts_last(s.drop_first(), cur.push(s[0]));
        assert(cur.push(s[0]) + s.drop_first() =~= cur + s);
    }
}

/// The individual flags of a `(spec, _)` entry, with any value placeholder
/// dropped.
pub fn aliases<'a>(spec: &'a str) -> (out: Vec<&'a str>)
    ensures
        out@.map_values(|a: &str| a@) == aliases_spec(spec@),
{
    let s = chars_of(spec);
    let n = s.len();
    let mut out: Vec<&'a str> = Vec::new();
    let mut p: usize = 0;
    assert(s@.skip(0) =~= s@);
    loop
        invariant
            p <= n == s.len(),
            s@ == spec@,
            aliases_spec(spec@) == out@.map_values(|a: &str| a@) + aliases_of_parts(
                comma_parts_from(s@.skip(p as int), seq![]),
            ),
        decreases n - p,
    {
        let mut q: usize = p;
        while q < n && s[q] != ','
            invariant
                p <= q <= n == s.len(),
                forall|k: int| p <= k < q ==> s@[k] != ',',
            decreases n - q,
        {
            q = q + 1;
        }
        let ghost rest = s@.skip(p as int);
        let ghost part = s@.subrange(p as int, q as int);
        assert(seq![] + rest.take(q - p) =~= part);
        let mut k: usize = p;
        while k < q && is_whitespace(s[k])
            invariant
                p <= k <= q,
                q <= n == s.len(),
                forall|i: int| p <= i < k ==> is_ws(s@[i]),
            decreases q - k,
        {
            k = k + 1;
        }
        let mut e: usize = k;
        while e < q && !is_whitespace(s[e])
            invariant
                k <= e <= q,
                q <= n == s.len(),
                forall|i: int| k <= i < e ==> !is_ws(s@[i]),
            decreases q - e,
        {
            e = e + 1;
        }
        proof {
            lemma_first_word_at(part, k - p, e - p);
            assert(part.subrange(k - p, e - p) =~= s@.subrange(k as int, e as int));
        }
        let ghost before = out@.map_values(|a: &str| a@);
        if e > k {
            let w = spec.substring_char(k, e);
            out.push(w);
            assert(out@.map_values(|a: &str| a@) =~= before + seq![part.subrange(k - p, e - p)]);
        }
        if q == n {
            proof {
                lemma_comma_parts_last(rest, seq![]);
                assert(seq![] + rest =~= part);
                let ps = seq![part];
                assert(ps.drop_first() =~= seq![]);
                assert(aliases_of_parts(ps) == (if first_word(part).len() > 0 {
                    seq![first_word(part)]
                } else {
                    seq![]
                }) + aliases_of_parts(ps.drop_first()));
                assert(aliases_of_parts(ps.drop_first()) == Seq::<Seq<char>>::empty());
            }
            assert(out@.map_values(|a: &str| a@) =~= before + aliases_of_parts(seq![part]));
            return out;
        }
        proof {
            lemma_comma_parts_split(rest, seq![], q - p);
            assert(rest.skip(q - p + 1) =~= s@.skip(q + 1));
            let ps = seq![part] + comma_parts_from(s@.skip(q + 1), seq![]);
            assert(ps.drop_first() =~= comma_parts_from(s@.skip(q + 1), seq![]));
            assert(aliases_of_parts(ps) == (if first_word(part).len() > 0 {
                seq![first_word(part)]
            } else {
                seq![]
            }) + aliases_of_parts(ps.drop_first()));
        }
        p = q + 1;
    }
}

/// `s` padded with spaces on the right to `w` characters.
pub open spec fn pad_right(s: Seq<char>, w: nat) -> Seq<char> {
    if s.len() < w {
        s + Seq::new((w - s.len()) as nat, |i: int| ' ')
    } else {
        s
    }
}

/// The widest byte length among the specs of `entries`.
pub open spec fn widest_spec(entries: Seq<(&str, &str)>) -> nat
    decreases entries.len(),
{
    if entries.len() == 0 {
        0
    } else {
        let rest = widest_spec(entries.drop_last());
        let here = utf8_len(entries.last().0@);
        if here > rest {
            here
        } else {
            rest
        }
    }
}

/// The entries of a subcommand's `FLAGS:` block: its own flags, then
/// `--help`.
pub fn flag_entries(flags: &[(&'static str, &'static str)]) -> (out: Vec<
    (&'static str, &'static str),
>)
    ensures
        out@ == flags@.push(HELP_FLAG),
{
    let mut out: Vec<(&'static str, &'static str)> = Vec::new();
    let mut i: usize = 0;
    while i < flags.len()
        invariant
            i <= flags.len(),
            out@ == flags@.take(i as int),
        decreases flags.len() - i,
    {
        out.push(flags[i]);
        i = i + 1;
        assert(out@ =~= flags@.take(i as int));
    }
    assert(flags@.take(flags.len() as int) =~= flags@);
    out.push(HELP_FLAG);
    out
}

/// The spec column of one titled group of flags: each spec padded to the
/// widest of them, so the descriptions line up. Sized to the longest entry
/// rather than a fixed width, which long flags would overflow.
pub fn flag_spec_column(entries: &[(&str, &str)]) -> (out: Vec<String>)
    requires
        widest_spec(entries@) <= usize::MAX,
    ensures
        out@.len() == entries@.len(),
        forall|i: int|
            0 <= i < entries@.len() ==> (#[trigger] out@[i])@ == pad_right(
                entries@[i].0@,
                widest_spec(entries@),
            ),
{
    let mut width: usize = 0;
    let mut i: usize = 0;
    assert(entries@.take(0) =~= seq![]);
    while i < entries.len()
        invariant
            i <= entries.len(),
            width == widest_spec(entries@.take(i as int)),
            widest_spec(entries@) <= usize::MAX,
        decreases entries.len() - i,
    {
        proof {
            assert(entries@.take(i + 1).drop_last() =~= entries@.take(i as int));
            lemma_widest_prefix(entries@, i + 1);
        }
        let cs = chars_of(entries[i].0);
        assert(cs@.subrange(0, cs@.len() as int) =~= cs@);
        let here = utf8_len_in(cs.as_slice(), 0, cs.len());
        if here > width {
            width = here;
        }
        i = i + 1;
    }
    assert(entries@.take(entries.len() as int) =~= entries@);
    let mut out: Vec<String> = Vec::new();
    let mut i: usize = 0;
    while i < entries.len()
        invariant
            i <= entries.len(),
            width == widest_spec(entries@),
            out@.len() == i,
            forall|k: int|
                0 <= k < i ==> (#[trigger] out@[k])@ == pad_right(entries@[k].0@, width as nat),
        decreases entries.len() - i,
    {
        let cs = chars_of(entries[i].0);
        let mut padded: Vec<char> = cs;
        let ghost s = padded@;
        if padded.len() < width {
            let need = width - padded.len();
            let mut d: usize = 0;
            while d < need
                invariant
                    d <= need,
                    padded@ == s + Seq::new(d as nat, |q: int| ' '),
                decreases need - d,
            {
                padded.push(' ');
                d = d + 1;
                assert(padded@ =~= s + Seq::new(d as nat, |q: int| ' '));
            }
        }
        out.push(string_of(padded.as_slice()));
        i = i + 1;
    }
    out
}

/// The lines of one titled group of flags, as printed: a blank line, the
/// title, then each entry indented by two spaces, its spec padded to the
/// widest and a space before its description.
pub open spec fn flag_group_text(title: Seq<char>, entries: Seq<(&str, &str)>) -> Seq<Seq<char>> {
    seq![Seq::<char>::empty(), title] + Seq::new(
        entries.len(),
        |i: int| "  "@ + pad_right(entries[i].0@, widest_spec(entries)) + " "@ + entries[i].1@,
    )
}

/// The lines of one titled group of flags.
pub fn flag_group_lines(title: &str, entries: &[(&str, &str)]) -> (out: Vec<String>)
    requires
        widest_spec(entries@) <= usize::MAX,
    ensures
        out@.map_values(|l: String| l@) == flag_group_text(title@, entries@),
{
    let column = flag_spec_column(entries);
    let mut out: Vec<String> = Vec::new();
    out.push(String::new());
    out.push(String::from_str(title));
    let mut i: usize = 0;
    assert(out@.map_values(|l: String| l@) =~= flag_group_text(title@, entries@).take(2));
    while i < entries.len()
        invariant
            i <= entries.len(),
            column@.len() == entries@.len(),
            forall|k: int|
                0 <= k < entries@.len() ==> (#[trigger] column@[k])@ == pad_right(
                    entries@[k].0@,
                    widest_spec(entries@),
                ),
            out@.map_values(|l: String| l@) == flag_group_text(title@, entries@).take(i + 2),
        decreases entries.len() - i,
    {
        let mut line = String::from_str("  ");
        line.append(column[i].as_str());
        line.append(" ");
        line.append(entries[i].1);
        let ghost prev = out@.map_values(|l: String| l@);
        let ghost text = flag_group_text(title@, entries@);
        assert(text[i + 2] == line@);
        out.push(line);
        assert(out@.map_values(|l: String| l@) =~= prev.push(text[i + 2]));
        i = i + 1;
        assert(out@.map_values(|l: String| l@) =~= flag_group_text(title@, entries@).take(i + 2));
    }
    assert(flag_group_text(title@, entries@).take(entries.len() + 2) =~= flag_group_text(
        title@,
        entries@,
    ));
    out
}

/// The `FLAGS:` block of a subcommand's help, `--help` included, as the lines
/// it prints.
pub fn print_flags(flags: &[(&'static str, &'static str)]) -> (out: Vec<String>)
    requires
        widest_spec(flags@.push(HELP_FLAG)) <= usize::MAX,
    ensures
        out@.map_values(|l: String| l@) == flag_group_text("FLAGS:"@, flags@.push(HELP_FLAG)),
{
    let entries = flag_entries(flags);
    flag_group_lines("FLAGS:", entries.as_slice())
}

proof fn lemma_widest_prefix(entries: Seq<(&str, &str)>, k: int)
    requires
        0 <= k <= entries.len(),
    ensures
        widest_spec(entries.take(k)) <= widest_spec(entries),
    decreases entries.len() - k,
{
    if k < entries.len() {
        lemma_widest_prefix(entries, k + 1);
        assert(entries.take(k + 1).drop_last() =~= entries.take(k));
    } else {
        assert(entries.take(k) =~= entries);
    }
}

/// `--flag=value` names `--flag`: whatever follows the first `=` is the
/// value, so the accepted form and the routed form cannot disagree.
pub proof fn law_a_value_does_not_hide_the_flag(flag: Seq<char>, value: Seq<char>)
    requires
        forall|i: int| 0 <= i < flag.len() ==> flag[i] != '=',
    ensures
        name_part(flag + seq!['='] + value) == flag,
        name_part(flag) == flag,
    decreases flag.len(),
{
    if flag.len() > 0 {
        law_a_value_does_not_hide_the_flag(flag.drop_first(), value);
        assert((flag + seq!['='] + value).drop_first() =~= flag.drop_first() + seq!['='] + value);
        assert(flag =~= seq![flag[0]] + flag.drop_first());
    } else {
        assert(flag + seq!['='] + value =~= seq!['='] + value);
    }
}

/// A flag given with a value is found by `has_flag` under its bare name.
pub proof fn law_has_flag_sees_values(args: Seq<String>, k: int, flag: Seq<char>, value: Seq<char>)
    requires
        0 <= k < args.len(),
        args[k]@ == flag + seq!['='] + value,
        forall|i: int| 0 <= i < flag.len() ==> flag[i] != '=',
    ensures
        names_flag(args, flag),
{
    law_a_value_does_not_hide_the_flag(flag, value);
    assert(name_part(args[k]@) == flag);
}

} // verus!
