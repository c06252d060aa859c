//! What holds of every set of chunks a file is cut into.
use vstd::prelude::*;

use crate::chunk::{
    opens_with_closer_or_comment, opens_with_keyword, worth_reading, continuation_marker, definitions_from, file_chunks, head_of, in_git_dir, is_definition,
    lemma_span_bounds_sorted, lemma_strip_cr_blank, lemma_window_end_bounds, span_bounds,
    span_chunks, spans_from, walked_file_chunks, window_end, window_text, ChunkView,
};
use crate::text::{
    has_prefix, is_blank, join_lines, lemma_lines_from_last, lemma_lines_from_segment, lines_from,
    lines_of, strip_cr, trim, trim_end, trim_start, utf8_len, is_ws,
};

verus! {

/// `s` holds no line ending.
pub open spec fn no_newline(s: Seq<char>) -> bool {
    forall|m: int| 0 <= m < s.len() ==> s[m] != '\n'
}

/// Whether `c` belongs to the span that line `s` of `ls` opens: `s` is the
/// file's first line or a definition, the chunk starts at or after it with no
/// definition in between, and the chunk's text opens with that line (a later
/// window of the span repeats it, followed by the continuation marker), so the
/// chunk's head names it whenever it is not blank.
pub open spec fn opened_by(ls: Seq<Seq<char>>, s: int, c: ChunkView) -> bool {
    &&& 0 <= s < c.line
    &&& s < ls.len()
    &&& (s == 0 || is_definition(ls[s]))
    &&& forall|k: int| s < k < c.line ==> !is_definition(#[trigger] ls[k])
    &&& (c.line - 1 == s ==> (c.text == ls[s] || c.text == ls[s] + seq!['\n'] + c.text.skip(
        ls[s].len() + 1 as int,
    )))
    &&& (c.line - 1 > s ==> has_prefix(c.text, ls[s] + continuation_marker()))
    &&& (!is_blank(ls[s]) ==> head_of(c.text) == trim_end(ls[s]))
}

proof fn lemma_lines_from_no_newline(s: Seq<char>, cur: Seq<char>)
    requires
        no_newline(cur),
    ensures
        forall|k: int|
            0 <= k < lines_from(s, cur).len() ==> no_newline(#[trigger] lines_from(s, cur)[k]),
    decreases s.len(),
{
    if s.len() == 0 {
        let all = lines_from(s, cur);
        assert forall|k: int| 0 <= k < all.len() implies no_newline(#[trigger] all[k]) by {
            assert(all[k] == cur);
        }
    } else if s[0] == '\n' {
        lemma_lines_from_no_newline(s.drop_first(), seq![]);
        let rest = lines_from(s.drop_first(), seq![]);
        let all = lines_from(s, cur);
        assert forall|k: int| 0 <= k < all.len() implies no_newline(#[trigger] all[k]) by {
            if k == 0 {
                assert(all[0] == strip_cr(cur));
                assert forall|m: int| 0 <= m < strip_cr(cur).len() implies strip_cr(cur)[m]
                    != '\n' by {
                    assert(strip_cr(cur)[m] == cur[m]);
                }
            } else {
                assert(all[k] == rest[k - 1]);
            }
        }
    } else {
        assert(no_newline(cur.push(s[0]))) by {
            assert forall|m: int| 0 <= m < cur.push(s[0]).len() implies cur.push(s[0])[m]
                != '\n' by {
                if m < cur.len() {
                    assert(cur.push(s[0])[m] == cur[m]);
                }
            }
        }
        lemma_lines_from_no_newline(s.drop_first(), cur.push(s[0]));
        assert(lines_from(s, cur) == lines_from(s.drop_first(), cur.push(s[0])));
    }
}

/// No line of a text holds a line ending.
pub proof fn lemma_lines_no_newline(s: Seq<char>)
    ensures
        forall|k: int| 0 <= k < lines_of(s).len() ==> no_newline(#[trigger] lines_of(s)[k]),
{
    lemma_lines_from_no_newline(s, seq![]);
}

/// Joining two or more lines puts the first, a line ending, then the rest.
pub proof fn lemma_join_front(ls: Seq<Seq<char>>)
    requires
        ls.len() >= 2,
    ensures
        join_lines(ls) == ls[0] + seq!['\n'] + join_lines(ls.drop_first()),
    decreases ls.len(),
{
    if ls.len() == 2 {
        assert(ls.drop_last() =~= seq![ls[0]]);
        assert(ls.drop_first() =~= seq![ls[1]]);
        assert(join_lines(seq![ls[0]]) == ls[0]);
        assert(join_lines(seq![ls[1]]) == ls[1]);
        assert(join_lines(ls) == join_lines(ls.drop_last()) + seq!['\n'] + ls.last());
    } else {
        lemma_join_front(ls.drop_last());
        assert(ls.drop_last().drop_first() =~= ls.drop_first().drop_last());
        assert(ls.drop_first().last() == ls.last());
        assert(ls.drop_last()[0] == ls[0]);
        assert(join_lines(ls) =~= ls[0] + seq!['\n'] + join_lines(ls.drop_first()));
    }
}

/// A text that opens with a line holding something names that line as its
/// head.
pub proof fn lemma_head_of_opening(h: Seq<char>, r: Seq<char>)
    requires
        no_newline(h),
        !is_blank(h),
    ensures
        head_of(h) == trim_end(h),
        head_of(h + seq!['\n'] + r) == trim_end(h),
{
    assert(h.len() > 0);
    lemma_lines_from_last(h, seq![]);
    assert(seq![] + h =~= h);
    let t = h + seq!['\n'] + r;
    assert(t[h.len() as int] == '\n');
    assert forall|k: int| 0 <= k < h.len() implies t[k] != '\n' by {
        assert(t[k] == h[k]);
    }
    lemma_lines_from_segment(t, seq![], h.len() as int);
    assert(seq![] + t.take(h.len() as int) =~= h);
    lemma_strip_cr_blank(h);
}

/// Whether the span bounds `b` of `ls` are in order and each opens with the
/// first line or a definition.
pub open spec fn good_bounds(ls: Seq<Seq<char>>, b: Seq<int>) -> bool {
    &&& b.len() >= 1
    &&& forall|x: int, y: int| 0 <= x <= y < b.len() ==> 0 <= #[trigger] b[x] <= #[trigger] b[y] <= ls.len()
    &&& forall|x: int| 0 <= x < b.len() - 1 ==> (#[trigger] b[x] == 0 || is_definition(ls[b[x]]))
    &&& forall|x: int, k: int|
        0 <= x < b.len() - 1 && #[trigger] b[x] < k < b[x + 1] ==> !is_definition(#[trigger] ls[k])
}

proof fn lemma_definitions_complete(ls: Seq<Seq<char>>, i: int)
    requires
        0 <= i,
    ensures
        definitions_from(ls, i).len() == 0 ==> forall|k: int|
            i <= k < ls.len() ==> !is_definition(#[trigger] ls[k]),
        definitions_from(ls, i).len() > 0 ==> forall|k: int|
            i <= k < definitions_from(ls, i)[0] ==> !is_definition(#[trigger] ls[k]),
        definitions_from(ls, i).len() > 0 ==> forall|k: int|
            definitions_from(ls, i).last() < k < ls.len() ==> !is_definition(#[trigger] ls[k]),
        forall|x: int, k: int|
            0 <= x < definitions_from(ls, i).len() - 1 && #[trigger] definitions_from(ls, i)[x] < k
                < definitions_from(ls, i)[x + 1] ==> !is_definition(#[trigger] ls[k]),
    decreases ls.len() - i,
{
    if i < ls.len() {
        lemma_definitions_complete(ls, i + 1);
        let r = definitions_from(ls, i + 1);
        let d = definitions_from(ls, i);
        if is_definition(ls[i]) {
            assert(d == seq![i] + r);
            assert forall|x: int, k: int|
                0 <= x < d.len() - 1 && #[trigger] d[x] < k < d[x + 1] implies !is_definition(
                #[trigger] ls[k],
            ) by {
                if x == 0 {
                    assert(d[1] == r[0]);
                } else {
                    assert(d[x] == r[x - 1]);
                    assert(d[x + 1] == r[x]);
                }
            }
            if r.len() > 0 {
                assert(d.last() == r.last());
            }
        } else {
            assert(d == r);
        }
    }
}

proof fn lemma_definitions_are_definitions(ls: Seq<Seq<char>>, i: int)
    requires
        0 <= i,
    ensures
        forall|k: int|
            0 <= k < definitions_from(ls, i).len() ==> 0 <= #[trigger] definitions_from(ls, i)[k]
                < ls.len() && is_definition(ls[definitions_from(ls, i)[k]]),
    decreases ls.len() - i,
{
    if i < ls.len() {
        lemma_definitions_are_definitions(ls, i + 1);
        let r = definitions_from(ls, i + 1);
        if is_definition(ls[i]) {
            assert forall|k: int| 0 <= k < definitions_from(ls, i).len() implies 0
                <= #[trigger] definitions_from(ls, i)[k] < ls.len() && is_definition(
                ls[definitions_from(ls, i)[k]],
            ) by {
                if k > 0 {
                    assert(definitions_from(ls, i)[k] == r[k - 1]);
                }
            }
        }
    }
}

proof fn lemma_span_bounds_good(ls: Seq<Seq<char>>)
    ensures
        good_bounds(ls, span_bounds(ls)),
{
    lemma_span_bounds_sorted(ls);
    lemma_definitions_are_definitions(ls, 0);
    lemma_definitions_complete(ls, 0);
    let d = definitions_from(ls, 0);
    let b = span_bounds(ls);
    assert forall|x: int| 0 <= x < b.len() - 1 implies (#[trigger] b[x] == 0 || is_definition(
        ls[b[x]],
    )) by {
        if !(d.len() > 0 && d[0] == 0) {
            if x > 0 {
                assert(b[x] == d[x - 1]);
            }
        } else {
            assert(b[x] == d[x]);
        }
    }
    let n = ls.len() as int;
    assert forall|x: int, k: int|
        0 <= x < b.len() - 1 && #[trigger] b[x] < k < b[x + 1] implies !is_definition(
        #[trigger] ls[k],
    ) by {
        if !(d.len() > 0 && d[0] == 0) {
            // b == [0] + d + [n]
            if x == 0 {
                if d.len() > 0 {
                    assert(b[1] == d[0]);
                } else {
                    assert(b[1] == n);
                }
            } else if x < d.len() {
                assert(b[x] == d[x - 1]);
                assert(b[x + 1] == d[x]);
            } else {
                assert(b[x] == d[x - 1]);
                assert(d[x - 1] == d.last());
                assert(b[x + 1] == n);
            }
        } else {
            // b == d + [n]
            if x < d.len() - 1 {
                assert(b[x] == d[x]);
                assert(b[x + 1] == d[x + 1]);
            } else {
                assert(b[x] == d.last());
                assert(b[x + 1] == n);
            }
        }
    }
}

/// Every chunk of one span: where it lies, that it belongs to the span's
/// opening line, and that it holds at least `min` bytes once trimmed.
proof fn lemma_span_chunks_facts(
    path: Seq<char>,
    ls: Seq<Seq<char>>,
    start: int,
    i: int,
    end: int,
    min: int,
    max: int,
)
    requires
        0 <= start <= i,
        start < end ==> start < ls.len(),
        end <= ls.len(),
        0 < max,
        start == 0 || is_definition(ls[start]),
        forall|k: int| start < k < end ==> !is_definition(#[trigger] ls[k]),
        forall|k: int| 0 <= k < ls.len() ==> no_newline(#[trigger] ls[k]),
    ensures
        forall|q: int|
            0 <= q < span_chunks(path, ls, start, i, end, min, max).len() ==> {
                let c = #[trigger] span_chunks(path, ls, start, i, end, min, max)[q];
                &&& i + 1 <= c.line <= end
                &&& c.file == path
                &&& utf8_len(trim(c.text)) >= min
                &&& opened_by(ls, start, c)
            },
        forall|q1: int, q2: int|
            0 <= q1 < q2 < span_chunks(path, ls, start, i, end, min, max).len() ==> (
            #[trigger] span_chunks(path, ls, start, i, end, min, max)[q1]).line < (
            #[trigger] span_chunks(path, ls, start, i, end, min, max)[q2]).line,
    decreases end - i,
{
    if 0 <= i < end && end <= ls.len() && 0 < max {
        let j = window_end(ls, i, end, 0, max);
        lemma_window_end_bounds(ls, i, end, 0, max);
        let text = window_text(ls, start, i, j);
        let c = ChunkView { file: path, line: i + 1, text };
        lemma_span_chunks_facts(path, ls, start, j, end, min, max);
        let rest = span_chunks(path, ls, start, j, end, min, max);
        let here = if utf8_len(trim(text)) >= min {
            seq![c]
        } else {
            seq![]
        };
        let all = span_chunks(path, ls, start, i, end, min, max);
        assert(all == here + rest);
        let h = ls[start];
        // The window opens with the span's opening line.
        if i == start {
            let w = ls.subrange(i, j);
            if j == i + 1 {
                assert(w =~= seq![h]);
                assert(text == h);
            } else {
                lemma_join_front(w);
                assert(w[0] == h);
                assert(text == h + seq!['\n'] + join_lines(w.drop_first()));
                assert(text.skip(h.len() + 1 as int) =~= join_lines(w.drop_first()));
            }
        } else {
            let body = join_lines(ls.subrange(i, j));
            assert(text == h + continuation_marker() + body);
            assert(text.subrange(0, (h + continuation_marker()).len() as int) =~= h
                + continuation_marker());
        }
        if !is_blank(h) {
            if i == start {
                if j == i + 1 {
                    lemma_head_of_opening(h, seq![]);
                } else {
                    lemma_head_of_opening(h, text.skip(h.len() + 1 as int));
                }
            } else {
                let m = continuation_marker();
                assert(m.len() > 0 && m[0] == '\n') by {
                    reveal_strlit("\n    // ...\n");
                }
                let r = m.drop_first() + join_lines(ls.subrange(i, j));
                assert(text =~= h + seq!['\n'] + r);
                lemma_head_of_opening(h, r);
            }
        }
        assert(opened_by(ls, start, c));
        assert forall|q: int| 0 <= q < all.len() implies {
            let c2 = #[trigger] all[q];
            &&& i + 1 <= c2.line <= end
            &&& c2.file == path
            &&& utf8_len(trim(c2.text)) >= min
            &&& opened_by(ls, start, c2)
        } by {
            if q >= here.len() {
                assert(all[q] == rest[q - here.len()]);
            }
        }
        assert forall|q1: int, q2: int| 0 <= q1 < q2 < all.len() implies (#[trigger] all[q1]).line
            < (#[trigger] all[q2]).line by {
            if q1 >= here.len() {
                assert(all[q1] == rest[q1 - here.len()]);
            }
            assert(all[q2] == rest[q2 - here.len()]);
        }
    }
}

/// Every chunk of the spans from the `k`-th on.
proof fn lemma_spans_from_facts(
    path: Seq<char>,
    ls: Seq<Seq<char>>,
    b: Seq<int>,
    k: int,
    min: int,
    max: int,
)
    requires
        0 <= k < b.len(),
        0 < max,
        good_bounds(ls, b),
        forall|x: int| 0 <= x < ls.len() ==> no_newline(#[trigger] ls[x]),
    ensures
        forall|q: int|
            0 <= q < spans_from(path, ls, b, k, min, max).len() ==> {
                let c = #[trigger] spans_from(path, ls, b, k, min, max)[q];
                &&& b[k] + 1 <= c.line <= ls.len()
                &&& c.file == path
                &&& utf8_len(trim(c.text)) >= min
                &&& exists|s: int| #[trigger] opened_by(ls, s, c)
            },
        forall|q1: int, q2: int|
            0 <= q1 < q2 < spans_from(path, ls, b, k, min, max).len() ==> (
            #[trigger] spans_from(path, ls, b, k, min, max)[q1]).line < (
            #[trigger] spans_from(path, ls, b, k, min, max)[q2]).line,
    decreases b.len() - k,
{
    if k + 1 < b.len() {
        let start = b[k];
        let end = b[k + 1];
        assert(b[k] <= b[k + 1]);
        lemma_span_chunks_facts(path, ls, start, start, end, min, max);
        lemma_spans_from_facts(path, ls, b, k + 1, min, max);
        let here = span_chunks(path, ls, start, start, end, min, max);
        let rest = spans_from(path, ls, b, k + 1, min, max);
        let all = spans_from(path, ls, b, k, min, max);
        assert(all == here + rest);
        assert forall|q: int| 0 <= q < all.len() implies {
            let c = #[trigger] all[q];
            &&& b[k] + 1 <= c.line <= ls.len()
            &&& c.file == path
            &&& utf8_len(trim(c.text)) >= min
            &&& exists|s: int| #[trigger] opened_by(ls, s, c)
        } by {
            if q < here.len() {
                assert(opened_by(ls, start, here[q]));
            } else {
                assert(all[q] == rest[q - here.len()]);
            }
        }
        assert forall|q1: int, q2: int| 0 <= q1 < q2 < all.len() implies (#[trigger] all[q1]).line
            < (#[trigger] all[q2]).line by {
            if q2 < here.len() {
            } else if q1 < here.len() {
                assert(all[q2] == rest[q2 - here.len()]);
                assert(here[q1].line <= end);
            } else {
                assert(all[q1] == rest[q1 - here.len()]);
                assert(all[q2] == rest[q2 - here.len()]);
            }
        }
    }
}

/// Every chunk of a file opens with the line that opens its span: the
/// definition it belongs to, or the file's first line. A window after the
/// first repeats that line and the continuation marker, so a chunk's head
/// names its definition either way.
pub proof fn law_chunks_open_with_their_definition(
    path: Seq<char>,
    text: Seq<char>,
    min: int,
    max: int,
    q: int,
)
    requires
        max > 0,
        0 <= q < file_chunks(path, text, min, max).len(),
    ensures
        exists|s: int| #[trigger] opened_by(lines_of(text), s, file_chunks(path, text, min, max)[q]),
{
    let ls = lines_of(text);
    lemma_span_bounds_good(ls);
    lemma_lines_no_newline(text);
    lemma_spans_from_facts(path, ls, span_bounds(ls), 0, min, max);
    let c = spans_from(path, ls, span_bounds(ls), 0, min, max)[q];
    assert(exists|s: int| opened_by(ls, s, c));
}

/// Chunks come out in file order: each names the file it came from, starts on
/// a line of it, counting from 1, and starts below the one before it.
pub proof fn law_chunks_follow_the_file(path: Seq<char>, text: Seq<char>, min: int, max: int)
    requires
        max > 0,
    ensures
        forall|q: int|
            0 <= q < file_chunks(path, text, min, max).len() ==> {
                let c = #[trigger] file_chunks(path, text, min, max)[q];
                &&& 1 <= c.line <= lines_of(text).len()
                &&& c.file == path
            },
        forall|q1: int, q2: int|
            0 <= q1 < q2 < file_chunks(path, text, min, max).len() ==> (#[trigger] file_chunks(
                path,
                text,
                min,
                max,
            )[q1]).line < (#[trigger] file_chunks(path, text, min, max)[q2]).line,
{
    let ls = lines_of(text);
    lemma_span_bounds_good(ls);
    lemma_lines_no_newline(text);
    lemma_spans_from_facts(path, ls, span_bounds(ls), 0, min, max);
}

/// No chunk holds fewer than `min` bytes once trimmed.
pub proof fn law_no_chunk_under_min(path: Seq<char>, text: Seq<char>, min: int, max: int)
    requires
        max > 0,
    ensures
        forall|q: int|
            0 <= q < file_chunks(path, text, min, max).len() ==> utf8_len(
                trim(#[trigger] file_chunks(path, text, min, max)[q].text),
            ) >= min,
{
    let ls = lines_of(text);
    lemma_span_bounds_good(ls);
    lemma_lines_no_newline(text);
    lemma_spans_from_facts(path, ls, span_bounds(ls), 0, min, max);
}

/// Nothing under `.git` is ever chunked.
pub proof fn law_git_internals_are_never_chunked(
    path: Seq<char>,
    text: Seq<char>,
    min: int,
    max: int,
)
    requires
        in_git_dir(path),
    ensures
        walked_file_chunks(path, text, min, max).len() == 0,
{
}

/// Bytes of the lines `i..j` of `ls`, each counted with its line ending.
pub open spec fn lines_bytes(ls: Seq<Seq<char>>, i: int, j: int) -> int
    decreases j - i,
{
    if i < j {
        lines_bytes(ls, i, j - 1) + utf8_len(ls[j - 1]) + 1
    } else {
        0
    }
}

proof fn lemma_window_rule(ls: Seq<Seq<char>>, i: int, j: int, end: int, max: int)
    requires
        0 <= i <= j <= end <= ls.len(),
        0 < max,
        j > i ==> lines_bytes(ls, i, j - 1) < max,
    ensures
        j <= window_end(ls, j, end, lines_bytes(ls, i, j), max) <= end,
        window_end(ls, j, end, lines_bytes(ls, i, j), max) > i ==> lines_bytes(
            ls,
            i,
            window_end(ls, j, end, lines_bytes(ls, i, j), max) - 1,
        ) < max,
        window_end(ls, j, end, lines_bytes(ls, i, j), max) < end ==> lines_bytes(
            ls,
            i,
            window_end(ls, j, end, lines_bytes(ls, i, j), max),
        ) >= max,
    decreases end - j,
{
    if j < end && lines_bytes(ls, i, j) < max {
        assert(lines_bytes(ls, i, j + 1) == lines_bytes(ls, i, j) + utf8_len(ls[j]) + 1);
        lemma_window_rule(ls, i, j + 1, end, max);
    }
}

/// A window takes lines while it is under `max` bytes: every line of it but
/// the last fits under `max`, and unless it runs to the end of its span, the
/// last line takes it to `max` or past. So a span longer than `max` bytes is
/// windowed rather than sent whole, and no window overshoots by more than its
/// last line.
pub proof fn law_windows_stop_at_max(ls: Seq<Seq<char>>, i: int, end: int, max: int)
    requires
        0 <= i < end <= ls.len(),
        0 < max,
    ensures
        i < window_end(ls, i, end, 0, max) <= end,
        lines_bytes(ls, i, window_end(ls, i, end, 0, max) - 1) < max,
        window_end(ls, i, end, 0, max) < end ==> lines_bytes(ls, i, window_end(ls, i, end, 0, max))
            >= max,
{
    lemma_window_rule(ls, i, i, end, max);
    lemma_window_end_bounds(ls, i, end, 0, max);
}

proof fn lemma_trim_end_front(c: char, r: Seq<char>)
    ensures
        trim_end(seq![c] + r) == if trim_end(r).len() == 0 && is_ws(c) {
            Seq::<char>::empty()
        } else {
            seq![c] + trim_end(r)
        },
    decreases r.len(),
{
    if r.len() == 0 {
        assert(seq![c] + r =~= seq![c]);
        assert(seq![c].drop_last() =~= Seq::<char>::empty());
        assert(trim_end(Seq::<char>::empty()) == Seq::<char>::empty());
        assert(trim_end(r) == r);
        assert(seq![c] + r =~= seq![c] + trim_end(r));
    } else if is_ws(r.last()) {
        assert((seq![c] + r).drop_last() =~= seq![c] + r.drop_last());
        lemma_trim_end_front(c, r.drop_last());
    } else {
        assert((seq![c] + r).last() == r.last());
        assert(trim_end(r) == r);
        assert(trim_end(seq![c] + r) == seq![c] + r);
    }
}

proof fn lemma_indent_then_trim(c: char, r: Seq<char>)
    requires
        is_ws(c),
    ensures
        trim_end(seq![c] + r).len() > 0 <==> trim_end(r).len() > 0,
        trim_start(trim_end(seq![c] + r)) == trim_start(trim_end(r)),
{
    lemma_trim_end_front(c, r);
    if trim_end(r).len() > 0 {
        let x = seq![c] + trim_end(r);
        assert(x.drop_first() =~= trim_end(r));
    }
}

/// A tab indents a line exactly as a space does: a line opening with a tab
/// starts a definition just when the same line opening with a space would,
/// and then only by opening with a definition keyword. A tab-indented
/// statement of a gofmt-style body is no definition.
pub proof fn law_a_tab_indents_like_a_space(rest: Seq<char>)
    ensures
        is_definition(seq!['\t'] + rest) == is_definition(seq![' '] + rest),
        is_definition(seq!['\t'] + rest) ==> opens_with_keyword(trim_start(trim_end(rest))),
        is_definition(seq!['\t'] + rest) <== (opens_with_keyword(trim_start(trim_end(rest)))
            && !opens_with_closer_or_comment(trim_start(trim_end(rest)))),
{
    lemma_indent_then_trim('\t', rest);
    lemma_indent_then_trim(' ', rest);
    let f = trim_start(trim_end(rest));
    if opens_with_keyword(f) {
        let i = choose|i: int| 0 <= i < 19 && has_prefix(f, (#[trigger] crate::chunk::DEFINITION_KEYWORDS@[i])@);
        assert(crate::chunk::DEFINITION_KEYWORDS@[i]@.len() > 0) by {
            reveal_strlit("fn ");
            reveal_strlit("pub fn ");
            reveal_strlit("async fn ");
            reveal_strlit("pub async fn ");
            reveal_strlit("def ");
            reveal_strlit("async def ");
            reveal_strlit("func ");
            reveal_strlit("function ");
            reveal_strlit("class ");
            reveal_strlit("impl ");
            reveal_strlit("struct ");
            reveal_strlit("enum ");
            reveal_strlit("trait ");
            reveal_strlit("interface ");
            reveal_strlit("public ");
            reveal_strlit("private ");
            reveal_strlit("protected ");
            reveal_strlit("static ");
            reveal_strlit("const fn ");
        }
    }
}

/// Which files are worth chunking, in bytes: one of at most 2,000,000 UTF-8
/// bytes whose every line is at most 2,000 bytes is, and no other; outside
/// `.git` such a file is cut as `split_file` cuts it.
pub proof fn law_files_worth_reading(path: Seq<char>, text: Seq<char>, min: int, max: int)
    ensures
        worth_reading(text) <==> (utf8_len(text) <= 2_000_000 && forall|k: int|
            0 <= k < lines_of(text).len() ==> utf8_len(#[trigger] lines_of(text)[k]) <= 2_000),
        (!in_git_dir(path) && utf8_len(text) <= 2_000_000 && forall|k: int|
            0 <= k < lines_of(text).len() ==> utf8_len(#[trigger] lines_of(text)[k]) <= 2_000)
            ==> walked_file_chunks(path, text, min, max) == file_chunks(path, text, min, max),
{
}

/// The words that mark an indented line as a definition: a line indented by
/// a space or a tab, not opening with a closing bracket or a comment, starts
/// a definition when it opens with any of these, the nested method of an
/// `impl` or a `class` being the common case.
pub proof fn law_indented_definitions_open_with_a_keyword(indent: char, rest: Seq<char>, k: int)
    requires
        indent == ' ' || indent == '\t',
        0 <= k < 19,
        has_prefix(
            trim_start(trim_end(rest)),
            seq![
                "fn "@,
                "pub fn "@,
                "async fn "@,
                "pub async fn "@,
                "def "@,
                "async def "@,
                "func "@,
                "function "@,
                "class "@,
                "impl "@,
                "struct "@,
                "enum "@,
                "trait "@,
                "interface "@,
                "public "@,
                "private "@,
                "protected "@,
                "static "@,
                "const fn "@,
            ][k],
        ),
    ensures
        is_definition(seq![indent] + rest),
{
    let f = trim_start(trim_end(rest));
    assert(crate::chunk::DEFINITION_KEYWORDS@[k]@ == seq![
        "fn "@,
        "pub fn "@,
        "async fn "@,
        "pub async fn "@,
        "def "@,
        "async def "@,
        "func "@,
        "function "@,
        "class "@,
        "impl "@,
        "struct "@,
        "enum "@,
        "trait "@,
        "interface "@,
        "public "@,
        "private "@,
        "protected "@,
        "static "@,
        "const fn "@,
    ][k]);
    reveal_strlit("fn ");
    reveal_strlit("pub fn ");
    reveal_strlit("async fn ");
    reveal_strlit("pub async fn ");
    reveal_strlit("def ");
    reveal_strlit("async def ");
    reveal_strlit("func ");
    reveal_strlit("function ");
    reveal_strlit("class ");
    reveal_strlit("impl ");
    reveal_strlit("struct ");
    reveal_strlit("enum ");
    reveal_strlit("trait ");
    reveal_strlit("interface ");
    reveal_strlit("public ");
    reveal_strlit("private ");
    reveal_strlit("protected ");
    reveal_strlit("static ");
    reveal_strlit("const fn ");
    reveal_strlit("}");
    reveal_strlit(")");
    reveal_strlit("//");
    reveal_strlit("#");
    reveal_strlit("/*");
    reveal_strlit("*");
    assert(opens_with_keyword(f));
    let kw = crate::chunk::DEFINITION_KEYWORDS@[k]@;
    assert(kw.len() > 0 && 'a' <= kw[0] && kw[0] <= 'z');
    assert(f.subrange(0, kw.len() as int) == kw);
    assert(f[0] == kw[0]);
    assert(!has_prefix(f, "}"@)) by { assert(f.subrange(0, 1)[0] == f[0]); }
    assert(!has_prefix(f, ")"@)) by { assert(f.subrange(0, 1)[0] == f[0]); }
    assert(!has_prefix(f, "#"@)) by { assert(f.subrange(0, 1)[0] == f[0]); }
    assert(!has_prefix(f, "*"@)) by { assert(f.subrange(0, 1)[0] == f[0]); }
    assert(!has_prefix(f, "//"@)) by {
        if f.len() >= 2 { assert(f.subrange(0, 2)[0] == f[0]); }
    }
    assert(!has_prefix(f, "/*"@)) by {
        if f.len() >= 2 { assert(f.subrange(0, 2)[0] == f[0]); }
    }
    assert(f.len() > 0);
    assert(!opens_with_closer_or_comment(f));
    if indent == '\t' {
        law_a_tab_indents_like_a_space(rest);
    } else {
        lemma_indent_then_trim(' ', rest);
    }
}

} // verus!
