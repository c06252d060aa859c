//! Splits source text into the units a question gets asked about.
//!
//! Language agnostic on purpose. A top-level definition is any non-blank line at
//! zero indentation that is not a closing brace or a comment, which catches Rust
//! `fn`/`impl`, Python `def`/`class`, Go `func` and JS `export function` without
//! carrying a parser per language.
use vstd::prelude::*;

use crate::text::{
    chars_of, extend_with_chars, extend_with_str, has_prefix, is_blank, is_blank_in, is_ws,
    join_lines, join_range, lemma_lines_from_last, lemma_lines_from_segment, lines_from, lines_of,
    saturate, split_lines, starts_with_in, string_of, strip_cr, trim, trim_bounds, trim_end,
    trim_end_in, trim_start, trim_start_in, utf8_len, utf8_len_in,
};

verus! {

/// One unit of source sent with a question.
pub struct Chunk {
    /// The file the text came from.
    pub file: String,
    /// 1-indexed, so it can be pasted straight into an editor.
    pub line: usize,
    pub text: String,
}

/// What a [`Chunk`] holds, as values.
pub struct ChunkView {
    pub file: Seq<char>,
    pub line: int,
    pub text: Seq<char>,
}

impl View for Chunk {
    type V = ChunkView;

    open spec fn view(&self) -> ChunkView {
        ChunkView { file: self.file@, line: self.line as int, text: self.text@ }
    }
}

/// The first line of `ls` that holds more than whitespace, or nothing.
pub open spec fn first_filled(ls: Seq<Seq<char>>) -> Seq<char>
    decreases ls.len(),
{
    if ls.len() == 0 {
        seq![]
    } else if !is_blank(ls[0]) {
        ls[0]
    } else {
        first_filled(ls.drop_first())
    }
}

/// The first line of `text` with something on it, trailing whitespace dropped.
pub open spec fn head_of(text: Seq<char>) -> Seq<char> {
    trim_end(first_filled(lines_of(text)))
}

/// A carriage return left at the end of a line is whitespace, so dropping it
/// changes neither blankness nor the line once trimmed at the end.
pub proof fn lemma_strip_cr_blank(l: Seq<char>)
    ensures
        is_blank(strip_cr(l)) == is_blank(l),
        trim_end(strip_cr(l)) == trim_end(l),
{
    if l.len() > 0 && l.last() == '\r' {
        assert(is_ws(l.last()));
        if is_blank(l.drop_last()) {
            assert forall|i: int| 0 <= i < l.len() implies #[trigger] is_ws(l[i]) by {
                if i < l.len() - 1 {
                    assert(l[i] == l.drop_last()[i]);
                }
            }
        }
        if is_blank(l) {
            assert forall|i: int| 0 <= i < l.drop_last().len() implies #[trigger] is_ws(
                l.drop_last()[i],
            ) by {
                assert(l[i] == l.drop_last()[i]);
            }
        }
    }
}

/// The bounds in `t` of the first line with something on it, trailing
/// whitespace dropped.
fn head_bounds(t: &[char]) -> (r: (usize, usize))
    ensures
        r.0 <= r.1 <= t.len(),
        t@.subrange(r.0 as int, r.1 as int) == head_of(t@),
{
    let n = t.len();
    let mut p: usize = 0;
    assert(t@.skip(0) =~= t@);
    while p < n
        invariant
            p <= n == t.len(),
            first_filled(lines_of(t@)) == first_filled(lines_from(t@.skip(p as int), seq![])),
        decreases n - p,
    {
        let mut q: usize = p;
        while q < n && t[q] != '\n'
            invariant
                p <= q <= n == t.len(),
                forall|k: int| p <= k < q ==> t@[k] != '\n',
            decreases n - q,
        {
            q = q + 1;
        }
        let ghost rest = t@.skip(p as int);
        let ghost seg = t@.subrange(p as int, q as int);
        assert(seq![] + rest.take(q - p) =~= seg);
        if q == n {
            proof {
                lemma_lines_from_last(rest, seq![]);
                assert(seq![] + rest =~= seg);
            }
            if is_blank_in(t, p, q) {
                assert(first_filled(seq![seg]) == first_filled(seq![seg].drop_first()));
                return (n, n);
            } else {
                let e = trim_end_in(t, p, q);
                return (p, e);
            }
        }
        proof {
            lemma_lines_from_segment(rest, seq![], q - p);
            assert(rest.skip(q - p + 1) =~= t@.skip(q + 1));
            lemma_strip_cr_blank(seg);
        }
        let ghost ls = seq![strip_cr(seg)] + lines_from(t@.skip(q + 1), seq![]);
        assert(ls.drop_first() =~= lines_from(t@.skip(q + 1), seq![]));
        if !is_blank_in(t, p, q) {
            let e = trim_end_in(t, p, q);
            return (p, e);
        }
        p = q + 1;
    }
    (n, n)
}

impl Chunk {
    /// First line with something on it. A windowed continuation carries its
    /// definition line, so this names the function either way.
    pub fn head(&self) -> (h: &str)
        ensures
            h@ == head_of(self.text@),
    {
        let cs = chars_of(self.text.as_str());
        let (a, b) = head_bounds(cs.as_slice());
        self.text.as_str().substring_char(a, b)
    }
}

/// A nested method is the common case, not the exception: nearly all Rust lives
/// inside an `impl` and nearly all Python inside a `class`, so a zero-indent rule
/// alone turns a 5,000 line file into windows all labelled `impl Foo {`.
pub const DEFINITION_KEYWORDS: [&'static str; 19] = [
    "fn ",
    "pub fn ",
    "async fn ",
    "pub async fn ",
    "def ",
    "async def ",
    "func ",
    "function ",
    "class ",
    "impl ",
    "struct ",
    "enum ",
    "trait ",
    "interface ",
    "public ",
    "private ",
    "protected ",
    "static ",
    "const fn ",
];

/// Whether `f` begins with one of the definition keywords.
pub open spec fn opens_with_keyword(f: Seq<char>) -> bool {
    exists|i: int| 0 <= i < 19 && has_prefix(f, (#[trigger] DEFINITION_KEYWORDS@[i])@)
}

/// Whether `f`, a line with its indentation dropped, opens with a closing
/// bracket or a comment.
pub open spec fn opens_with_closer_or_comment(f: Seq<char>) -> bool {
    has_prefix(f, "}"@) || has_prefix(f, ")"@) || has_prefix(f, "//"@) || has_prefix(f, "#"@)
        || has_prefix(f, "/*"@) || has_prefix(f, "*"@)
}

/// Whether `line` starts a top-level definition: it is not blank, does not
/// open with a closing bracket or a comment, and either has no indentation or
/// opens with a definition keyword.
pub open spec fn is_definition(line: Seq<char>) -> bool {
    let t = trim_end(line);
    let f = trim_start(t);
    &&& t.len() > 0
    &&& !opens_with_closer_or_comment(f)
    &&& (!(line[0] == ' ' || line[0] == '\t') || opens_with_keyword(f))
}

/// `is_definition` on a line held as characters.
pub fn starts_definition_chars(line: &[char]) -> (r: bool)
    ensures
        r == is_definition(line@),
{
    let n = line.len();
    assert(line@.subrange(0, n as int) =~= line@);
    let e = trim_end_in(line, 0, n);
    if e == 0 {
        return false;
    }
    let a = trim_start_in(line, 0, e);
    if starts_with_in(line, a, e, "}") || starts_with_in(line, a, e, ")") || starts_with_in(
        line,
        a,
        e,
        "//",
    ) || starts_with_in(line, a, e, "#") || starts_with_in(line, a, e, "/*") || starts_with_in(
        line,
        a,
        e,
        "*",
    ) {
        return false;
    }
    if !(line[0] == ' ' || line[0] == '\t') {
        return true;
    }
    let mut i: usize = 0;
    while i < 19
        invariant
            i <= 19,
            a <= e <= n == line.len(),
            line@.subrange(a as int, e as int) == trim_start(trim_end(line@)),
            trim_end(line@).len() > 0,
            !opens_with_closer_or_comment(line@.subrange(a as int, e as int)),
            line@[0] == ' ' || line@[0] == '\t',
            forall|k: int|
                0 <= k < i ==> !has_prefix(
                    line@.subrange(a as int, e as int),
                    (#[trigger] DEFINITION_KEYWORDS@[k])@,
                ),
        decreases 19 - i,
    {
        let kw = DEFINITION_KEYWORDS[i];
        if starts_with_in(line, a, e, kw) {
            assert(kw == DEFINITION_KEYWORDS@[i as int]);
            assert(has_prefix(trim_start(trim_end(line@)), (DEFINITION_KEYWORDS@[i as int])@));
            return true;
        }
        i = i + 1;
    }
    false
}

/// Whether `line` starts a top-level definition.
///
/// ponytail: indentation plus a keyword list, swap in tree-sitter if a language
/// it cannot read (Haskell, Lisp) turns up in real use. A miss degrades into
/// windowing rather than into a wrong answer.
pub fn starts_definition(line: &str) -> (r: bool)
    ensures
        r == is_definition(line@),
{
    let cs = chars_of(line);
    starts_definition_chars(cs.as_slice())
}

/// Whether `path` names something inside a `.git` directory: one of its
/// `/`-separated components is exactly `.git`.
pub open spec fn in_git_dir(path: Seq<char>) -> bool {
    exists|i: int, j: int|
        0 <= i <= j <= path.len() && (i == 0 || path[i - 1] == '/') && (j == path.len() || path[j]
            == '/') && #[trigger] path.subrange(i, j) == ".git"@
}

/// `.git` is never source, and its text files are worse than noise: `config`
/// carries remote URLs, `logs/HEAD` carries the author's name and email on every
/// line, and `COMMIT_EDITMSG` carries whatever was last being written. Sending
/// those to a model API is not something a search tool should do quietly, so the
/// check is explicit rather than left to the hidden-file default.
pub fn is_git_internal(path: &str) -> (r: bool)
    ensures
        r == in_git_dir(path@),
{
    let p = chars_of(path);
    let g = chars_of(".git");
    let n = p.len();
    let m = g.len();
    let mut i: usize = 0;
    while i < n
        invariant
            i <= n == p.len(),
            p@ == path@,
            g@ == ".git"@,
            m == g.len(),
            forall|a: int, b: int|
                0 <= a < i && a <= b <= n && (a == 0 || p@[a - 1] == '/') && (b == n || p@[b]
                    == '/') ==> #[trigger] p@.subrange(a, b) != ".git"@,
        decreases n - i,
    {
        if (i == 0 || p[i - 1] == '/') && starts_with_in(p.as_slice(), i, n, ".git") && (i + m == n
            || p[i + m] == '/') {
            assert(p@.subrange(i as int, n as int).subrange(0, m as int) =~= p@.subrange(
                i as int,
                (i + m) as int,
            ));
            return true;
        }
        proof {
            assert forall|b: int|
                i <= b <= n && (i == 0 || p@[i - 1] == '/') && (b == n || p@[b] == '/')
                    implies #[trigger] p@.subrange(i as int, b) != ".git"@ by {
                if p@.subrange(i as int, b) == ".git"@ {
                    assert(b - i == m);
                    assert(p@.subrange(i as int, n as int).subrange(0, m as int) =~= p@.subrange(
                        i as int,
                        b,
                    ));
                }
            }
        }
        i = i + 1;
    }
    proof {
        assert forall|a: int, b: int|
            0 <= a <= b <= n && (a == 0 || p@[a - 1] == '/') && (b == n || p@[b] == '/')
                implies #[trigger] p@.subrange(a, b) != ".git"@ by {
            if a == n {
                assert(p@.subrange(a, b).len() == 0);
                assert(g@.len() == m);
                assert(m > 0) by {
                    reveal_strlit(".git");
                }
            }
        }
    }
    false
}

// ---------------------------------------------------------------------------
// Splitting a file
// ---------------------------------------------------------------------------

/// Indices `i..` of `ls` whose line starts a definition, in order.
pub open spec fn definitions_from(ls: Seq<Seq<char>>, i: int) -> Seq<int>
    decreases ls.len() - i,
{
    if i < 0 || i >= ls.len() {
        seq![]
    } else if is_definition(ls[i]) {
        seq![i] + definitions_from(ls, i + 1)
    } else {
        definitions_from(ls, i + 1)
    }
}

/// Where the spans of `ls` begin and end: every definition line, line 0 in
/// front when it is not one, and the line count last.
pub open spec fn span_bounds(ls: Seq<Seq<char>>) -> Seq<int> {
    let d = definitions_from(ls, 0);
    let b = if d.len() > 0 && d[0] == 0 {
        d
    } else {
        seq![0int] + d
    };
    b.push(ls.len() as int)
}

/// Where a window that begins at line `j` with `bytes` already taken stops:
/// lines are added while the window is under `max` bytes, each counted with
/// its line ending.
pub open spec fn window_end(ls: Seq<Seq<char>>, j: int, end: int, bytes: int, max: int) -> int
    decreases end - j,
{
    if 0 <= j < end && j < ls.len() && bytes < max {
        window_end(ls, j + 1, end, bytes + utf8_len(ls[j]) + 1, max)
    } else {
        j
    }
}

/// The marker between a repeated definition line and the window that follows.
pub open spec fn continuation_marker() -> Seq<char> {
    "\n    // ...\n"@
}

/// The text of the window `i..j` of the span that begins at `start`. Every
/// window after the first repeats the definition line.
pub open spec fn window_text(ls: Seq<Seq<char>>, start: int, i: int, j: int) -> Seq<char> {
    let body = join_lines(ls.subrange(i, j));
    if i > start {
        ls[start] + continuation_marker() + body
    } else {
        body
    }
}

pub proof fn lemma_window_end_bounds(ls: Seq<Seq<char>>, j: int, end: int, bytes: int, max: int)
    requires
        0 <= j,
    ensures
        j <= window_end(ls, j, end, bytes, max),
        j <= end && end <= ls.len() ==> window_end(ls, j, end, bytes, max) <= end,
        j < end && j < ls.len() && bytes < max ==> window_end(ls, j, end, bytes, max) > j,
    decreases end - j,
{
    if 0 <= j < end && j < ls.len() && bytes < max {
        lemma_window_end_bounds(ls, j + 1, end, bytes + utf8_len(ls[j]) + 1, max);
    }
}

/// The chunks of the span `start..end` from line `i` on: each window that
/// holds at least `min` bytes once trimmed.
pub open spec fn span_chunks(
    path: Seq<char>,
    ls: Seq<Seq<char>>,
    start: int,
    i: int,
    end: int,
    min: int,
    max: int,
) -> Seq<ChunkView>
    decreases end - i,
{
    if 0 <= i < end && end <= ls.len() && 0 < max {
        let j = window_end(ls, i, end, 0, max);
        proof {
            lemma_window_end_bounds(ls, i, end, 0, max);
        }
        let text = window_text(ls, start, i, j);
        let here = if utf8_len(trim(text)) >= min {
            seq![ChunkView { file: path, line: i + 1, text }]
        } else {
            seq![]
        };
        here + span_chunks(path, ls, start, j, end, min, max)
    } else {
        seq![]
    }
}

/// The chunks of the spans `b[k]..b[k + 1]` onwards.
pub open spec fn spans_from(
    path: Seq<char>,
    ls: Seq<Seq<char>>,
    b: Seq<int>,
    k: int,
    min: int,
    max: int,
) -> Seq<ChunkView>
    decreases b.len() - k,
{
    if 0 <= k && k + 1 < b.len() {
        span_chunks(path, ls, b[k], b[k], b[k + 1], min, max) + spans_from(
            path,
            ls,
            b,
            k + 1,
            min,
            max,
        )
    } else {
        seq![]
    }
}

/// The chunks of the file at `path` holding `text`: it is cut into spans at
/// definition lines, each span is cut into windows of about `max` bytes, and
/// windows under `min` bytes once trimmed are dropped.
pub open spec fn file_chunks(path: Seq<char>, text: Seq<char>, min: int, max: int) -> Seq<
    ChunkView,
> {
    let ls = lines_of(text);
    spans_from(path, ls, span_bounds(ls), 0, min, max)
}

proof fn lemma_definitions_sorted(ls: Seq<Seq<char>>, i: int)
    requires
        0 <= i,
    ensures
        forall|k: int|
            0 <= k < definitions_from(ls, i).len() ==> i <= #[trigger] definitions_from(ls, i)[k]
                < ls.len(),
        forall|k: int, l: int|
            0 <= k < l < definitions_from(ls, i).len() ==> #[trigger] definitions_from(ls, i)[k]
                < #[trigger] definitions_from(ls, i)[l],
    decreases ls.len() - i,
{
    if i < ls.len() {
        lemma_definitions_sorted(ls, i + 1);
        let r = definitions_from(ls, i + 1);
        if is_definition(ls[i]) {
            assert forall|k: int, l: int|
                0 <= k < l < definitions_from(ls, i).len() implies #[trigger] definitions_from(
                ls,
                i,
            )[k] < #[trigger] definitions_from(ls, i)[l] by {
                if k > 0 {
                    assert(definitions_from(ls, i)[k] == r[k - 1]);
                }
                assert(definitions_from(ls, i)[l] == r[l - 1]);
            }
            assert forall|k: int|
                0 <= k < definitions_from(ls, i).len() implies i <= #[trigger] definitions_from(
                ls,
                i,
            )[k] < ls.len() by {
                if k > 0 {
                    assert(definitions_from(ls, i)[k] == r[k - 1]);
                }
            }
        }
    }
}

/// The span bounds run from 0 to the line count without going back.
pub proof fn lemma_span_bounds_sorted(ls: Seq<Seq<char>>)
    ensures
        span_bounds(ls).len() >= 2,
        span_bounds(ls)[0] == 0,
        span_bounds(ls).last() == ls.len(),
        forall|k: int, l: int|
            0 <= k <= l < span_bounds(ls).len() ==> 0 <= #[trigger] span_bounds(ls)[k]
                <= #[trigger] span_bounds(ls)[l] <= ls.len(),
{
    lemma_definitions_sorted(ls, 0);
    let d = definitions_from(ls, 0);
    let b0 = if d.len() > 0 && d[0] == 0 {
        d
    } else {
        seq![0int] + d
    };
    assert forall|k: int, l: int| 0 <= k <= l < b0.len() implies 0 <= #[trigger] b0[k] <= #[trigger] b0[l] < ls.len() || (b0.len() == 1 && ls.len() == 0) by {
        if !(d.len() > 0 && d[0] == 0) {
            if k > 0 {
                assert(b0[k] == d[k - 1]);
            }
            if l > 0 {
                assert(b0[l] == d[l - 1]);
                if k == 0 {
                    assert(d[0] <= d[l - 1]);
                }
            }
        } else {
            if k < l {
                assert(d[k] < d[l]);
            }
        }
    }
}

/// The views of a sequence of chunks.
pub open spec fn views(cs: Seq<Chunk>) -> Seq<ChunkView> {
    cs.map_values(|c: Chunk| c@)
}

/// The indices of the lines that start a definition.
fn definition_lines(lines: &Vec<Vec<char>>) -> (out: Vec<usize>)
    ensures
        out@.map_values(|x: usize| x as int) == span_bounds(lines.deep_view()),
{
    let ghost ls = lines.deep_view();
    let n = lines.len();
    let mut out: Vec<usize> = Vec::new();
    let mut i: usize = 0;
    while i < n
        invariant
            i <= n == lines.len(),
            ls == lines.deep_view(),
            forall|k: int| 0 <= k < out.len() ==> out@[k] < i,
            out@.map_values(|x: usize| x as int) + definitions_from(ls, i as int)
                == definitions_from(ls, 0),
        decreases n - i,
    {
        assert(lines[i as int]@ =~= ls[i as int]);
        let ghost before = out@;
        if starts_definition_chars(lines[i].as_slice()) {
            out.push(i);
            assert(out@.map_values(|x: usize| x as int) =~= before.map_values(|x: usize| x as int)
                + seq![i as int]);
        }
        i = i + 1;
    }
    assert(out@.map_values(|x: usize| x as int) =~= definitions_from(ls, 0));
    let ghost d = out@;
    if out.len() == 0 || out[0] != 0 {
        out.insert(0, 0);
        assert(out@.map_values(|x: usize| x as int) =~= seq![0int] + d.map_values(
            |x: usize| x as int,
        ));
    }
    let ghost b = out@;
    out.push(n);
    assert(out@.map_values(|x: usize| x as int) =~= b.map_values(|x: usize| x as int).push(
        n as int,
    ));
    out
}

/// Cuts `text`, the contents of the file at `path`, into chunks: spans that
/// begin at definition lines, windowed at `max_bytes`, dropping windows under
/// `min_bytes` once trimmed.
pub fn split_file(path: &str, text: &str, min_bytes: usize, max_bytes: usize) -> (out: Vec<Chunk>)
    requires
        max_bytes > 0,
    ensures
        views(out@) == file_chunks(path@, text@, min_bytes as int, max_bytes as int),
{
    let cs = chars_of(text);
    let lines = split_lines(cs.as_slice());
    let ghost ls = lines.deep_view();
    let bounds = definition_lines(&lines);
    let ghost b = bounds@.map_values(|x: usize| x as int);
    let ghost total = file_chunks(path@, text@, min_bytes as int, max_bytes as int);
    let n = lines.len();
    let mut out: Vec<Chunk> = Vec::new();
    let mut k: usize = 0;
    assert(b.len() >= 1);
    while k + 1 < bounds.len()
        invariant
            ls == lines.deep_view(),
            ls == lines_of(text@),
            n == lines.len(),
            b == bounds@.map_values(|x: usize| x as int),
            b == span_bounds(ls),
            total == file_chunks(path@, text@, min_bytes as int, max_bytes as int),
            total == views(out@) + spans_from(path@, ls, b, k as int, min_bytes as int, max_bytes as int),
            max_bytes > 0,
            k < bounds.len(),
        decreases bounds.len() - k,
    {
        let start = bounds[k];
        let end = bounds[k + 1];
        proof {
            lemma_span_bounds_sorted(ls);
        }
        assert(b[k as int] == start && b[k + 1] == end);
        let ghost after = spans_from(path@, ls, b, k + 1, min_bytes as int, max_bytes as int);
        assert(spans_from(path@, ls, b, k as int, min_bytes as int, max_bytes as int) == span_chunks(path@, ls, start as int, start as int, end as int, min_bytes as int, max_bytes as int) + after);
        let mut i = start;
        while i < end
            invariant
                start <= i <= end <= n,
                n == lines.len(),
                ls == lines.deep_view(),
                max_bytes > 0,
                total == views(out@) + span_chunks(path@, ls, start as int, i as int, end as int, min_bytes as int, max_bytes as int) + after,
            decreases end - i,
        {
            let ghost mut bytes_true: int = 0;
            let mut bytes: usize = 0;
            let mut j = i;
            while j < end && bytes < max_bytes
                invariant
                    i <= j <= end <= n,
                    n == lines.len(),
                    ls == lines.deep_view(),
                    bytes_true >= 0,
                    bytes == saturate(bytes_true as nat),
                    window_end(ls, i as int, end as int, 0, max_bytes as int) == window_end(ls, j as int, end as int, bytes_true, max_bytes as int),
                decreases end - j,
            {
                assert(lines[j as int]@ =~= ls[j as int]);
                assert(lines[j as int]@.subrange(0, lines[j as int]@.len() as int) =~= lines[j as int]@);
                let w = utf8_len_in(lines[j].as_slice(), 0, lines[j].len());
                proof {
                    bytes_true = bytes_true + utf8_len(ls[j as int]) + 1;
                }
                bytes = bytes.saturating_add(w).saturating_add(1);
                j = j + 1;
            }
            proof {
                lemma_window_end_bounds(ls, i as int, end as int, 0, max_bytes as int);
            }
            assert(j == window_end(ls, i as int, end as int, 0, max_bytes as int));
            let mut body = join_range(&lines, i, j);
            if i > start {
                let mut full: Vec<char> = Vec::new();
                assert(lines[start as int]@ =~= ls[start as int]);
                extend_with_chars(&mut full, lines[start].as_slice());
                extend_with_str(&mut full, "\n    // ...\n");
                extend_with_chars(&mut full, body.as_slice());
                body = full;
            }
            assert(body@ == window_text(ls, start as int, i as int, j as int));
            let (ta, tb) = trim_bounds(body.as_slice());
            let size = utf8_len_in(body.as_slice(), ta, tb);
            let ghost before = out@;
            if size >= min_bytes {
                let c = Chunk { file: path.to_owned(), line: i + 1, text: string_of(body.as_slice()) };
                out.push(c);
                assert(views(out@) =~= views(before) + seq![c@]);
            }
            i = j;
        }
        k = k + 1;
    }
    out
}

/// Largest file, in bytes, that is worth chunking.
pub const MAX_FILE_BYTES: usize = 2_000_000;

/// Longest line, in bytes, of a file worth chunking.
pub const MAX_LINE_BYTES: usize = 2_000;

/// Whether text is worth asking about: binary and minified files answer no
/// question worth asking, so a file over `MAX_FILE_BYTES`, or with a line over
/// `MAX_LINE_BYTES`, is not.
pub open spec fn worth_reading(text: Seq<char>) -> bool {
    &&& utf8_len(text) <= MAX_FILE_BYTES
    &&& forall|k: int|
        0 <= k < lines_of(text).len() ==> utf8_len(#[trigger] lines_of(text)[k]) <= MAX_LINE_BYTES
}

/// `worth_reading` on a string.
pub fn is_worth_reading(text: &str) -> (r: bool)
    ensures
        r == worth_reading(text@),
{
    let cs = chars_of(text);
    assert(cs@.subrange(0, cs@.len() as int) =~= cs@);
    if utf8_len_in(cs.as_slice(), 0, cs.len()) > MAX_FILE_BYTES {
        return false;
    }
    let lines = split_lines(cs.as_slice());
    let ghost ls = lines.deep_view();
    let mut k: usize = 0;
    while k < lines.len()
        invariant
            k <= lines.len(),
            ls == lines.deep_view(),
            ls == lines_of(text@),
            forall|q: int| 0 <= q < k ==> utf8_len(#[trigger] ls[q]) <= MAX_LINE_BYTES,
        decreases lines.len() - k,
    {
        assert(lines[k as int]@ =~= ls[k as int]);
        assert(lines[k as int]@.subrange(0, lines[k as int]@.len() as int) =~= lines[k as int]@);
        if utf8_len_in(lines[k].as_slice(), 0, lines[k].len()) > MAX_LINE_BYTES {
            return false;
        }
        k = k + 1;
    }
    true
}

/// The chunks of one file found on a walk: none for anything inside `.git` or
/// not worth reading, else `split_file`'s.
pub open spec fn walked_file_chunks(path: Seq<char>, text: Seq<char>, min: int, max: int) -> Seq<
    ChunkView,
> {
    if in_git_dir(path) || !worth_reading(text) {
        seq![]
    } else {
        file_chunks(path, text, min, max)
    }
}

/// The chunks of one file found on a walk of a source tree.
pub fn chunk_file(path: &str, text: &str, min_bytes: usize, max_bytes: usize) -> (out: Vec<Chunk>)
    requires
        max_bytes > 0,
    ensures
        views(out@) == walked_file_chunks(path@, text@, min_bytes as int, max_bytes as int),
{
    if is_git_internal(path) || !is_worth_reading(text) {
        let out: Vec<Chunk> = Vec::new();
        assert(views(out@) =~= seq![]);
        return out;
    }
    split_file(path, text, min_bytes, max_bytes)
}

} // verus!
