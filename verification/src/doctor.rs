//! `omni doctor`: installation diagnostics. The checks themselves touch the
//! disk and the database; this module holds the report's shape and the text
//! it is built from.
use vstd::prelude::*;

use crate::flags::pad_right;
use crate::text::{
    chars_of, decimal, decimal_string, extend_with_chars, extend_with_str, has_prefix, is_blank,
    is_blank_in, lines_of, split_lines, starts_with_in, string_of, trim_end, trim_end_in,
};

verus! {

/// The `--json` form of a doctor run.
pub struct DoctorJson {
    pub version: String,
    pub healthy: bool,
    pub checks: Vec<DoctorCheck>,
    pub fix_available: bool,
    /// What the per-agent reports said that a check name cannot carry. Left
    /// out of the JSON when empty.
    pub warnings: Vec<String>,
}

/// One named check and its outcome.
pub struct DoctorCheck {
    pub name: String,
    pub ok: bool,
    pub message: String,
}

impl DoctorCheck {
    pub fn new(name: &str, ok: bool, message: String) -> (c: DoctorCheck)
        ensures
            c.name@ == name@,
            c.ok == ok,
            c.message == message,
    {
        DoctorCheck { name: String::from_str(name), ok, message }
    }
}

/// How long ago `ts` was, seen at `now` (both in seconds): the largest unit
/// that fits, rounded down, and "just now" for a time not yet past.
pub open spec fn time_ago(now: u64, ts: u64) -> Seq<char> {
    if ts >= now {
        "just now"@
    } else {
        let diff = (now - ts) as nat;
        if diff < 60 {
            decimal(diff) + " seconds ago"@
        } else if diff < 3600 {
            decimal(diff / 60) + " minutes ago"@
        } else if diff < 86400 {
            decimal(diff / 3600) + " hours ago"@
        } else {
            decimal(diff / 86400) + " days ago"@
        }
    }
}

/// `time_ago`, executable; the caller reads the clock.
pub fn format_time_ago_at(now: u64, ts: u64) -> (s: String)
    ensures
        s@ == time_ago(now, ts),
{
    if ts >= now {
        return String::from_str("just now");
    }
    let diff = now - ts;
    let (n, unit) = if diff < 60 {
        (diff, " seconds ago")
    } else if diff < 3600 {
        (diff / 60, " minutes ago")
    } else if diff < 86400 {
        (diff / 3600, " hours ago")
    } else {
        (diff / 86400, " days ago")
    };
    let mut s = decimal_string(n);
    s.append(unit);
    s
}

/// One line for the MCP section, phrased so a missing tool is a setting rather
/// than a mystery: how many of `total` tools are advertised to `agent_id`,
/// all of them when `keep_everything` is on, else the `active` ones.
pub open spec fn mcp_line(agent_id: Seq<char>, keep_everything: bool, total: u64, active: u64) -> Seq<
    char,
> {
    let (shown, note) = if keep_everything {
        (total, "OMNI_MCP_TOOLS=all is set"@)
    } else {
        (active, "OMNI_MCP_TOOLS=all restores the rest"@)
    };
    "  MCP tools:      "@ + decimal(shown as nat) + " of "@ + decimal(total as nat)
        + " advertised to "@ + agent_id + " ("@ + note + ")"@
}

/// `mcp_line`, executable; the caller counts the tools.
pub fn mcp_tool_line(agent_id: &str, keep_everything: bool, total: u64, active: u64) -> (s: String)
    ensures
        s@ == mcp_line(agent_id@, keep_everything, total, active),
{
    let (shown, note) = if keep_everything {
        (total, "OMNI_MCP_TOOLS=all is set")
    } else {
        (active, "OMNI_MCP_TOOLS=all restores the rest")
    };
    let mut s = String::from_str("  MCP tools:      ");
    let a = decimal_string(shown);
    s.append(a.as_str());
    s.append(" of ");
    let t = decimal_string(total);
    s.append(t.as_str());
    s.append(" advertised to ");
    s.append(agent_id);
    s.append(" (");
    s.append(note);
    s.append(")");
    s
}

/// Whether `l` holds `[OK]` somewhere.
pub open spec fn marks_ok(l: Seq<char>) -> bool {
    exists|k: int| 0 <= k <= l.len() && #[trigger] has_prefix(l.subrange(k, l.len() as int), "[OK]"@)
}

/// `ls` from its first line with something on it.
pub open spec fn skip_blank(ls: Seq<Seq<char>>) -> Seq<Seq<char>>
    decreases ls.len(),
{
    if ls.len() > 0 && is_blank(ls[0]) {
        skip_blank(ls.drop_first())
    } else {
        ls
    }
}

/// The lines of a report under its heading: leading blank lines and the
/// heading itself dropped.
pub open spec fn report_body(report: Seq<char>) -> Seq<Seq<char>> {
    let s = skip_blank(lines_of(report));
    if s.len() > 0 {
        s.drop_first()
    } else {
        s
    }
}

/// How many lines of `ls` mark a passing check.
pub open spec fn count_ok(ls: Seq<Seq<char>>) -> nat
    decreases ls.len(),
{
    if ls.len() == 0 {
        0
    } else {
        count_ok(ls.drop_last()) + if marks_ok(ls.last()) {
            1nat
        } else {
            0nat
        }
    }
}

/// The lines of `ls` kept in the condensed view, each shifted right by one
/// space: neither passing checks nor blank lines.
pub open spec fn kept_lines(ls: Seq<Seq<char>>) -> Seq<char>
    decreases ls.len(),
{
    if ls.len() == 0 {
        seq![]
    } else {
        let l = ls.last();
        kept_lines(ls.drop_last()) + if !marks_ok(l) && !is_blank(l) {
            seq![' '] + l + seq!['\n']
        } else {
            seq![]
        }
    }
}

/// `1 check` / `3 checks`, padded to nine characters, then `[OK]`; nothing at
/// all when no check passed.
pub open spec fn ok_count_text(hidden: nat) -> Seq<char> {
    if hidden == 0 {
        seq![]
    } else {
        pad_right(
            decimal(hidden) + if hidden == 1 {
                " check"@
            } else {
                " checks"@
            },
            9,
        ) + "[OK]"@
    }
}

/// One host's section of the doctor report. In detail mode the report is
/// left as the integration wrote it, with its distill tier added. Otherwise
/// it is condensed to one row (name, tier and how many checks passed, padded
/// to the given widths) followed by the lines that need attention, shifted
/// right by one space so nested lines keep their nesting; the passing checks
/// are counted rather than shown.
pub open spec fn condensed(
    name: Seq<char>,
    tier: Seq<char>,
    report: Seq<char>,
    detail: bool,
    name_width: nat,
    tier_width: nat,
) -> (Seq<char>, nat) {
    if detail {
        (report + "   "@ + pad_right("Distill tier:"@, 15) + " "@ + tier + "\n"@, 0)
    } else {
        let body = report_body(report);
        let hidden = count_ok(body);
        let row = "  "@ + pad_right(name, name_width) + pad_right(tier, tier_width) + ok_count_text(
            hidden,
        );
        (trim_end(row) + seq!['\n'] + kept_lines(body), hidden)
    }
}

/// Whether `l` holds `[OK]`.
fn has_ok_mark(l: &[char]) -> (r: bool)
    ensures
        r == marks_ok(l@),
{
    let n = l.len();
    let mut k: usize = 0;
    loop
        invariant
            k <= n,
            n == l.len(),
            forall|j: int| 0 <= j < k ==> !#[trigger] has_prefix(l@.subrange(j, n as int), "[OK]"@),
        decreases n - k,
    {
        if starts_with_in(l, k, n, "[OK]") {
            return true;
        }
        if k == n {
            return false;
        }
        k = k + 1;
    }
}

/// `s` padded with spaces to `w` characters.
fn pad_chars(out: &mut Vec<char>, s: &[char], w: usize)
    ensures
        final(out)@ == old(out)@ + pad_right(s@, w as nat),
{
    extend_with_chars(out, s);
    if s.len() < w {
        let need = w - s.len();
        let ghost base = out@;
        let mut d: usize = 0;
        while d < need
            invariant
                d <= need,
                out@ == base + Seq::new(d as nat, |i: int| ' '),
            decreases need - d,
        {
            out.push(' ');
            d = d + 1;
            assert(out@ =~= base + Seq::new(d as nat, |i: int| ' '));
        }
        assert(out@ =~= old(out)@ + pad_right(s@, w as nat));
    }
}

/// One host's section of the doctor report, and how many of its checks
/// passed unseen; see `condensed`. The caller colours it.
pub fn condense_agent_report(
    name: &str,
    tier: &str,
    report: &str,
    detail: bool,
    name_width: usize,
    tier_width: usize,
) -> (r: (String, usize))
    ensures
        (r.0@, r.1 as nat) == condensed(
            name@,
            tier@,
            report@,
            detail,
            name_width as nat,
            tier_width as nat,
        ),
{
    if detail {
        let mut out: Vec<char> = Vec::new();
        let rc = chars_of(report);
        extend_with_chars(&mut out, rc.as_slice());
        extend_with_str(&mut out, "   ");
        let label = chars_of("Distill tier:");
        pad_chars(&mut out, label.as_slice(), 15);
        extend_with_str(&mut out, " ");
        extend_with_str(&mut out, tier);
        extend_with_str(&mut out, "\n");
        return (string_of(out.as_slice()), 0);
    }
    let rc = chars_of(report);
    let lines = split_lines(rc.as_slice());
    let ghost ls = lines.deep_view();
    let mut p: usize = 0;
    assert(ls.skip(0) =~= ls);
    while p < lines.len() && is_blank_in(lines[p].as_slice(), 0, lines[p].len())
        invariant
            p <= lines.len(),
            ls == lines.deep_view(),
            skip_blank(ls) == skip_blank(ls.skip(p as int)),
        decreases lines.len() - p,
    {
        assert(lines[p as int]@.subrange(0, lines[p as int]@.len() as int) =~= ls[p as int]);
        assert(ls.skip(p as int).drop_first() =~= ls.skip(p + 1));
        p = p + 1;
    }
    if p < lines.len() {
        assert(lines[p as int]@.subrange(0, lines[p as int]@.len() as int) =~= ls[p as int]);
        assert(ls.skip(p as int).drop_first() =~= ls.skip(p + 1));
        p = p + 1;
    }
    let ghost body = ls.skip(p as int);
    assert(body == report_body(report@));
    let mut hidden: usize = 0;
    let mut kept: Vec<char> = Vec::new();
    let mut k = p;
    assert(body.take(0) =~= seq![]);
    while k < lines.len()
        invariant
            p <= k <= lines.len(),
            ls == lines.deep_view(),
            body == ls.skip(p as int),
            hidden == count_ok(body.take(k - p)),
            hidden <= k - p,
            kept@ == kept_lines(body.take(k - p)),
        decreases lines.len() - k,
    {
        let ghost prev = body.take(k - p);
        assert(body.take(k + 1 - p).drop_last() =~= prev);
        assert(body.take(k + 1 - p).last() == ls[k as int]);
        assert(lines[k as int]@ =~= ls[k as int]);
        let l = lines[k].as_slice();
        let ok = has_ok_mark(l);
        if ok {
            hidden = hidden + 1;
        } else {
            assert(l@.subrange(0, l@.len() as int) =~= l@);
            if !is_blank_in(l, 0, l.len()) {
                kept.push(' ');
                extend_with_chars(&mut kept, l);
                kept.push('\n');
            }
        }
        k = k + 1;
        assert(kept@ =~= kept_lines(body.take(k - p)));
    }
    assert(body.take(lines.len() - p) =~= body);
    let mut row: Vec<char> = Vec::new();
    extend_with_str(&mut row, "  ");
    let nc = chars_of(name);
    pad_chars(&mut row, nc.as_slice(), name_width);
    let tc = chars_of(tier);
    pad_chars(&mut row, tc.as_slice(), tier_width);
    if hidden > 0 {
        let mut count: Vec<char> = Vec::new();
        let d = decimal_string(hidden as u64);
        extend_with_str(&mut count, d.as_str());
        if hidden == 1 {
            extend_with_str(&mut count, " check");
        } else {
            extend_with_str(&mut count, " checks");
        }
        assert(count@ == decimal(hidden as nat) + if hidden == 1 {
            " check"@
        } else {
            " checks"@
        });
        pad_chars(&mut row, count.as_slice(), 9);
        extend_with_str(&mut row, "[OK]");
    }
    assert(row@ =~= "  "@ + pad_right(name@, name_width as nat) + pad_right(tier@, tier_width as nat)
        + ok_count_text(hidden as nat));
    assert(row@.subrange(0, row@.len() as int) =~= row@);
    let e = trim_end_in(row.as_slice(), 0, row.len());
    let mut out: Vec<char> = Vec::new();
    let mut i: usize = 0;
    while i < e
        invariant
            i <= e <= row.len(),
            out@ == row@.subrange(0, i as int),
        decreases e - i,
    {
        out.push(row[i]);
        i = i + 1;
        assert(out@ =~= row@.subrange(0, i as int));
    }
    out.push('\n');
    extend_with_chars(&mut out, kept.as_slice());
    assert(out@ =~= trim_end(row@) + seq!['\n'] + kept_lines(body));
    (string_of(out.as_slice()), hidden)
}

} // verus!
