//! `omni dashboard`: the request routing and response framing of the local
//! page server. Binding, reading and rendering from the database are the
//! caller's.
use vstd::prelude::*;

use crate::text::{chars_eq, chars_of, decimal, decimal_string, is_whitespace, is_ws, string_of};

verus! {

/// The whitespace-separated words of `cur + s`, where `cur` is the part of the
/// current word already read, as `split_whitespace` yields them.
pub open spec fn words_from(s: Seq<char>, cur: Seq<char>) -> Seq<Seq<char>>
    decreases s.len(),
{
    if s.len() == 0 {
        if cur.len() == 0 {
            seq![]
        } else {
            seq![cur]
        }
    } else if is_ws(s[0]) {
        (if cur.len() == 0 {
            seq![]
        } else {
            seq![cur]
        }) + words_from(s.drop_first(), seq![])
    } else {
        words_from(s.drop_first(), cur.push(s[0]))
    }
}

/// The whitespace-separated words of `s`.
pub open spec fn words_of(s: Seq<char>) -> Seq<Seq<char>> {
    words_from(s, seq![])
}

/// The part of `s` before its first `?`, or all of it.
pub open spec fn before_query(s: Seq<char>) -> Seq<char>
    decreases s.len(),
{
    if s.len() == 0 || s[0] == '?' {
        seq![]
    } else {
        seq![s[0]] + before_query(s.drop_first())
    }
}

/// The path a request line asks for: the target of a `GET`, its query
/// dropped; `/` for a line that is not a request line (fewer than two
/// words). Only `GET` is answered: a dashboard that reads a database has no
/// reason to accept anything that writes, so another method asks for
/// `/nothing`, which no route serves.
pub open spec fn requested_path(line: Seq<char>) -> Seq<char> {
    let w = words_of(line);
    if w.len() < 2 {
        "/"@
    } else if w[0] == "GET"@ {
        before_query(w[1])
    } else {
        "/nothing"@
    }
}

/// The words of `s`.
fn split_words(s: &[char]) -> (out: Vec<Vec<char>>)
    ensures
        out.deep_view() == words_of(s@),
{
    let mut out: Vec<Vec<char>> = Vec::new();
    let mut cur: Vec<char> = Vec::new();
    let mut i: usize = 0;
    assert(s@.skip(0) =~= s@);
    while i < s.len()
        invariant
            i <= s.len(),
            words_of(s@) == out.deep_view() + words_from(s@.skip(i as int), cur@),
        decreases s.len() - i,
    {
        let ghost rest = s@.skip(i as int);
        assert(rest.drop_first() =~= s@.skip(i + 1));
        assert(rest[0] == s@[i as int]);
        if is_whitespace(s[i]) {
            let ghost before = out.deep_view();
            if cur.len() > 0 {
                let w = cur;
                assert(w.deep_view() =~= w@);
                out.push(w);
                assert(out.deep_view() =~= before + seq![w@]);
            } else {
                assert(before + (seq![] + words_from(s@.skip(i + 1), seq![])) =~= before
                    + words_from(s@.skip(i + 1), seq![]));
            }
            cur = Vec::new();
            assert(cur@ =~= seq![]);
        } else {
            cur.push(s[i]);
        }
        i = i + 1;
    }
    if cur.len() > 0 {
        let ghost before = out.deep_view();
        assert(cur.deep_view() =~= cur@);
        out.push(cur);
        assert(out.deep_view() =~= before.push(cur@));
    } else {
        assert(out.deep_view() + words_from(s@.skip(i as int), cur@) =~= out.deep_view());
    }
    out
}

proof fn lemma_before_query(s: Seq<char>, k: int)
    requires
        0 <= k <= s.len(),
        k == s.len() || s[k] == '?',
        forall|i: int| 0 <= i < k ==> s[i] != '?',
    ensures
        s.take(k) == before_query(s),
    decreases k,
{
    if k > 0 {
        lemma_before_query(s.drop_first(), k - 1);
        assert(s.take(k) =~= seq![s[0]] + s.drop_first().take(k - 1));
    } else {
        assert(s.take(0) =~= seq![]);
    }
}

/// The path from a request line, or `/` when it is not one we understand.
/// Only `GET` is answered: another method gets `/nothing`, and the 404.
pub fn request_path(request_line: &str) -> (p: String)
    ensures
        p@ == requested_path(request_line@),
{
    let cs = chars_of(request_line);
    let words = split_words(cs.as_slice());
    let ghost w = words.deep_view();
    let get = chars_of("GET");
    if words.len() < 2 {
        return String::from_str("/");
    }
    if chars_eq(words[0].as_slice(), get.as_slice()) {
        assert(words[0]@ =~= w[0]);
        assert(words[1]@ =~= w[1]);
        let target = &words[1];
        let mut k: usize = 0;
        while k < target.len() && target[k] != '?'
            invariant
                k <= target.len(),
                forall|i: int| 0 <= i < k ==> target@[i] != '?',
            decreases target.len() - k,
        {
            k = k + 1;
        }
        proof {
            lemma_before_query(target@, k as int);
        }
        let mut out: Vec<char> = Vec::new();
        let mut i: usize = 0;
        while i < k
            invariant
                i <= k <= target.len(),
                out@ == target@.take(i as int),
            decreases k - i,
        {
            out.push(target[i]);
            i = i + 1;
            assert(out@ =~= target@.take(i as int));
        }
        return string_of(out.as_slice());
    }
    assert(words[0]@ =~= w[0]);
    String::from_str("/nothing")
}

/// What a path is answered with.
pub enum Route {
    /// The dashboard page.
    Page,
    /// `ok`: enough to tell "the server is up" from "the page is broken"
    /// without rendering anything.
    Health,
    /// Anything else.
    NotFound,
}

/// The route for a path.
pub open spec fn route_of(path: Seq<char>) -> Route {
    if path == "/"@ {
        Route::Page
    } else if path == "/health"@ {
        Route::Health
    } else {
        Route::NotFound
    }
}

/// The route for a path.
pub fn route(path: &str) -> (r: Route)
    ensures
        r == route_of(path@),
{
    let p = chars_of(path);
    let root = chars_of("/");
    let health = chars_of("/health");
    if chars_eq(p.as_slice(), root.as_slice()) {
        Route::Page
    } else if chars_eq(p.as_slice(), health.as_slice()) {
        Route::Health
    } else {
        Route::NotFound
    }
}

impl Route {
    /// The status line's reason.
    pub fn status(&self) -> (s: &'static str)
        ensures
            s@ == (if self is NotFound {
                "404 Not Found"@
            } else {
                "200 OK"@
            }),
    {
        match self {
            Route::NotFound => "404 Not Found",
            _ => "200 OK",
        }
    }

    /// The content type: HTML for the page, plain text otherwise.
    pub fn content_type(&self) -> (s: &'static str)
        ensures
            s@ == (if self is Page {
                "text/html; charset=utf-8"@
            } else {
                "text/plain; charset=utf-8"@
            }),
    {
        match self {
            Route::Page => "text/html; charset=utf-8",
            _ => "text/plain; charset=utf-8",
        }
    }
}

/// A complete HTTP/1.1 response carrying `body`, which is `body_len` bytes
/// long; the connection closes after it.
pub open spec fn http_response(
    status: Seq<char>,
    content_type: Seq<char>,
    body: Seq<char>,
    body_len: nat,
) -> Seq<char> {
    "HTTP/1.1 "@ + status + "\r\nContent-Type: "@ + content_type + "\r\nContent-Length: "@
        + decimal(body_len) + "\r\nConnection: close\r\n\r\n"@ + body
}

/// A complete HTTP/1.1 response carrying `body`, its length in bytes in the
/// header.
pub fn response_text(status: &str, content_type: &str, body: &str) -> (r: String)
    ensures
        r@ == http_response(status@, content_type@, body@, body.len() as nat),
{
    let len = body.len();
    let mut r = String::from_str("HTTP/1.1 ");
    r.append(status);
    r.append("\r\nContent-Type: ");
    r.append(content_type);
    r.append("\r\nContent-Length: ");
    let d = decimal_string(len as u64);
    r.append(d.as_str());
    r.append("\r\nConnection: close\r\n\r\n");
    r.append(body);
    r
}

/// What the dashboard answers for `path`: the page, as HTML, for `/`; `ok`
/// for `/health`; `not found`, with a 404, for anything else. `page` is the
/// rendered dashboard, read only for `/`.
pub fn response(path: &str, page: &str) -> (r: String)
    ensures
        route_of(path@) is Page ==> r@ == http_response(
            "200 OK"@,
            "text/html; charset=utf-8"@,
            page@,
            page.len() as nat,
        ),
        route_of(path@) is Health ==> r@ == http_response(
            "200 OK"@,
            "text/plain; charset=utf-8"@,
            "ok"@,
            2,
        ),
        route_of(path@) is NotFound ==> r@ == http_response(
            "404 Not Found"@,
            "text/plain; charset=utf-8"@,
            "not found"@,
            9,
        ),
{
    broadcast use vstd::string::is_ascii_spec_bytes;

    let r = route(path);
    let body = match r {
        Route::Page => page,
        Route::Health => "ok",
        Route::NotFound => "not found",
    };
    proof {
        reveal_strlit("ok");
        reveal_strlit("not found");
        assert(vstd::string::is_ascii("ok"));
        assert(vstd::string::is_ascii("not found"));
    }
    response_text(r.status(), r.content_type(), body)
}

/// Only `GET` is answered: a request line whose method is anything else is
/// routed nowhere, and gets the 404.
pub proof fn law_only_get_is_answered(line: Seq<char>)
    requires
        words_of(line).len() >= 2,
        words_of(line)[0] != "GET"@,
    ensures
        route_of(requested_path(line)) is NotFound,
{
    reveal_strlit("/nothing");
    reveal_strlit("/");
    reveal_strlit("/health");
    assert(requested_path(line) == "/nothing"@);
    assert("/nothing"@.len() != "/"@.len());
    assert("/nothing"@ != "/health"@) by {
        assert("/nothing"@[1] != "/health"@[1]);
    }
}

} // verus!
