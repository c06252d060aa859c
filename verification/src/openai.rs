//! Any OpenAI-compatible chat endpoint: OpenAI, Groq, OpenRouter, vLLM, Ollama.
//!
//! A chat model writes words, not probabilities, so this backend asks for a
//! single token and reads the token distribution instead of the text. The
//! probability of "yes" against "no" at position one is a real distribution the
//! model already computed, which is far better calibrated than asking it to
//! rate its own confidence in prose.
//!
//! An endpoint that serves no logprobs falls back to the one word it wrote, and
//! scores are then only ever 0.0 or 1.0. `--threshold` cannot rank anything in
//! that mode, which `id()` records so those scores never share a cache with the
//! graded ones.
use vstd::prelude::*;

use crate::backend::{
    concat_str, next_after_failure, retryable, status_detail, status_detail_string, status_line,
    status_line_string, Attempts, MAX_ATTEMPTS, Next,
};
use crate::jev::{failed_with, fails_now, lemma_after_failure};
use crate::text::{
    ascii_lower, ascii_lower_seq, chars_eq, chars_of, is_ws, to_ascii_lower, trim, trim_bounds,
    trim_end, trim_start,
};

verus! {

/// The instruction every request opens with.
pub const SYSTEM_PROMPT: &'static str =
    "You judge one piece of code. Reply with exactly one word: yes or no.";

/// Alternatives asked for at the first position when logprobs are on.
pub const TOP_LOGPROBS: u32 = 10;

/// An OpenAI-compatible chat endpoint: token, model and base URL.
pub struct OpenAiCompat {
    token: String,
    model: String,
    base_url: String,
}

/// What one chat request carries.
pub struct ChatRequest {
    pub model: String,
    pub temperature: u32,
    pub max_tokens: u32,
    pub system: &'static str,
    pub user: String,
    /// Whether the token distribution is asked for, and how many alternatives.
    pub top_logprobs: Option<u32>,
}

/// `s` without any trailing `/`.
pub open spec fn trim_slashes(s: Seq<char>) -> Seq<char>
    decreases s.len(),
{
    if s.len() > 0 && s.last() == '/' {
        trim_slashes(s.drop_last())
    } else {
        s
    }
}

/// The user message: the code fenced, then the question as a statement about
/// it.
pub open spec fn user_prompt(question: Seq<char>, code: Seq<char>) -> Seq<char> {
    "```\n"@ + code + "\n```\n\nStatement: the code above "@ + question
        + "\n\nIs the statement true?"@
}

/// The scoring mode, as it appears in the cache key.
pub open spec fn mode_name(binary: bool) -> Seq<char> {
    if binary {
        "binary"@
    } else {
        "logprobs"@
    }
}

/// The logprob fields of a request: the count of alternatives asked for, or
/// none at all.
pub open spec fn logprob_fields(logprobs: bool) -> Option<u32> {
    if logprobs {
        Some(TOP_LOGPROBS)
    } else {
        None
    }
}

/// Whether a client is in binary mode after a reply, having been in binary
/// mode before it when `binary`: a request goes out with logprobs only in
/// graded mode, and a reply can only ever drop them.
pub open spec fn mode_after<S>(binary: bool, reply: ChatReply<S>) -> bool {
    binary || drops_logprobs(!binary, reply)
}

/// The cache id of an endpoint in a mode.
pub open spec fn compat_id(base_url: Seq<char>, model: Seq<char>, binary: bool) -> Seq<char> {
    "openai:"@ + base_url + ":"@ + model + ":"@ + mode_name(binary)
}

impl OpenAiCompat {
    pub closed spec fn token(&self) -> Seq<char> {
        self.token@
    }

    pub closed spec fn model(&self) -> Seq<char> {
        self.model@
    }

    pub closed spec fn base_url(&self) -> Seq<char> {
        self.base_url@
    }

    /// The base URL is kept without trailing slashes, so paths join cleanly.
    pub fn new(token: String, model: String, base_url: String) -> (c: OpenAiCompat)
        ensures
            c.token() == token@,
            c.model() == model@,
            c.base_url() == trim_slashes(base_url@),
    {
        let cs = chars_of(base_url.as_str());
        let mut e = cs.len();
        assert(cs@.take(e as int) =~= cs@);
        while e > 0 && cs[e - 1] == '/'
            invariant
                e <= cs.len(),
                cs@ == base_url@,
                trim_slashes(cs@.take(e as int)) == trim_slashes(base_url@),
            decreases e,
        {
            assert(cs@.take(e as int).drop_last() =~= cs@.take(e - 1));
            e = e - 1;
        }
        let base = String::from_str(base_url.as_str().substring_char(0, e));
        assert(cs@.take(e as int) =~= base_url@.subrange(0, e as int));
        OpenAiCompat { token, model, base_url: base }
    }

    /// Goes into the cache key. The mode is part of it: a binary 1.0 and a
    /// graded 1.0 mean different things and must not be served for one another.
    pub fn id(&self, binary: bool) -> (s: String)
        ensures
            s@ == compat_id(self.base_url(), self.model(), binary),
    {
        let mut s = String::from_str("openai:");
        s.append(self.base_url.as_str());
        s.append(":");
        s.append(self.model.as_str());
        s.append(":");
        if binary {
            s.append("binary");
        } else {
            s.append("logprobs");
        }
        s
    }

    /// Where chat requests go.
    pub fn chat_url(&self) -> (s: String)
        ensures
            s@ == self.base_url() + "/chat/completions"@,
    {
        let mut s = String::from_str(self.base_url.as_str());
        s.append("/chat/completions");
        s
    }

    /// The `Authorization` header value.
    pub fn authorization(&self) -> (s: String)
        ensures
            s@ == "Bearer "@ + self.token(),
    {
        concat_str("Bearer ", self.token.as_str())
    }

    /// The request asking `question` about `code`, for one token at
    /// temperature 0, with the token distribution when `logprobs` is set.
    pub fn body(&self, question: &str, code: &str, logprobs: bool) -> (r: ChatRequest)
        ensures
            r.model@ == self.model(),
            r.temperature == 0,
            r.max_tokens == 1,
            r.system == SYSTEM_PROMPT,
            r.user@ == user_prompt(question@, code@),
            r.top_logprobs == logprob_fields(logprobs),
    {
        let mut user = String::from_str("```\n");
        user.append(code);
        user.append("\n```\n\nStatement: the code above ");
        user.append(question);
        user.append("\n\nIs the statement true?");
        ChatRequest {
            model: self.model.clone(),
            temperature: 0,
            max_tokens: 1,
            system: SYSTEM_PROMPT,
            user,
            top_logprobs: if logprobs {
                Some(TOP_LOGPROBS)
            } else {
                None
            },
        }
    }
}

/// How a first-position token votes: `Some(true)` for yes, `Some(false)` for
/// no, `None` for anything else. Only the two words count, trimmed and in any
/// ASCII case, as do their one-letter forms.
pub open spec fn token_vote(token: Seq<char>) -> Option<bool> {
    let w = ascii_lower_seq(trim(token));
    if w == "yes"@ || w == "y"@ {
        Some(true)
    } else if w == "no"@ || w == "n"@ {
        Some(false)
    } else {
        None
    }
}

/// `token_vote`, executable.
pub fn vote_of(token: &str) -> (v: Option<bool>)
    ensures
        v == token_vote(token@),
{
    let cs = chars_of(token);
    let (a, b) = trim_bounds(cs.as_slice());
    let mut w: Vec<char> = Vec::new();
    let mut i = a;
    while i < b
        invariant
            a <= i <= b <= cs.len(),
            w@ == ascii_lower_seq(cs@.subrange(a as int, i as int)),
        decreases b - i,
    {
        w.push(to_ascii_lower(cs[i]));
        i = i + 1;
        assert(w@ =~= ascii_lower_seq(cs@.subrange(a as int, i as int)));
    }
    let yes = chars_of("yes");
    let y = chars_of("y");
    let no = chars_of("no");
    let n = chars_of("n");
    if chars_eq(w.as_slice(), yes.as_slice()) || chars_eq(w.as_slice(), y.as_slice()) {
        Some(true)
    } else if chars_eq(w.as_slice(), no.as_slice()) || chars_eq(w.as_slice(), n.as_slice()) {
        Some(false)
    } else {
        None
    }
}

/// Whether the word a model wrote reads as yes: once trimmed, it starts with
/// `y` in either case.
pub open spec fn says_yes(content: Option<Seq<char>>) -> bool {
    let t = trim(
        match content {
            Some(c) => c,
            None => Seq::<char>::empty(),
        },
    );
    t.len() > 0 && ascii_lower(t[0]) == 'y'
}

/// `says_yes`, executable.
pub fn said_yes(content: Option<&str>) -> (r: bool)
    ensures
        r == says_yes(
            match content {
                Some(c) => Some(c@),
                None => None,
            },
        ),
{
    match content {
        None => false,
        Some(c) => {
            let cs = chars_of(c);
            let (a, b) = trim_bounds(cs.as_slice());
            a < b && to_ascii_lower(cs[a]) == 'y'
        },
    }
}

/// How one chat request went, as far as the retry policy cares.
pub enum ChatReply<S> {
    /// The first token's distribution named yes or no; the probability of yes
    /// against no.
    Graded(S),
    /// No distribution came back with the reply: the endpoint serves no
    /// logprobs. The one word the model wrote.
    Unserved(Option<String>),
    /// A distribution came back but named neither yes nor no; the one word the
    /// model wrote.
    Unnamed(Option<String>),
    /// A response with no choices.
    NoChoices,
    /// A response that did not parse; the parser's message.
    Unparsable(String),
    /// An HTTP error status and the response body.
    Status(u16, String),
    /// The request failed before a status came back; its message.
    Transport(String),
}

/// A score: graded from the distribution, or read from the word written.
pub enum Score<S> {
    Graded(S),
    Said(bool),
}

/// What to do after one reply: whether the endpoint is now known to serve no
/// logprobs, the backoff to wait first, and how to go on.
pub struct ChatStep<S> {
    pub drop_logprobs: bool,
    pub backoff: Option<u32>,
    pub next: Next<Score<S>>,
}

/// Whether a reply to a request sent with logprobs when `want_logprobs`
/// shows the endpoint refusing them: no distribution served at all, or a 400
/// to a request that asked for one.
pub open spec fn drops_logprobs<S>(want_logprobs: bool, reply: ChatReply<S>) -> bool {
    match reply {
        ChatReply::Unserved(_) => true,
        ChatReply::Status(c, _) => c == 400 && want_logprobs,
        _ => false,
    }
}

/// The score read from the word a model wrote.
pub open spec fn word_score<S>(w: Option<String>) -> Score<S> {
    Score::Said(
        says_yes(
            match w {
                Some(c) => Some(c@),
                None => None,
            },
        ),
    )
}

/// The retry policy, after the reply to attempt `at.attempt`, sent with
/// logprobs when `want_logprobs`.
///
/// A distribution that names yes or no is the score. Without one the word the
/// model wrote is the score; where no distribution was served at all, the
/// endpoint is marked as serving no logprobs, and a distribution that merely
/// named neither word leaves it graded. A 400 to a request with logprobs is
/// usually the endpoint refusing them: they are dropped and the next attempt
/// answers in binary, at once. A 429 or 5xx, or a transport failure, is waited
/// out and retried while attempts last; any other status fails with the body
/// the server sent.
pub fn chat_step<S>(at: Attempts, want_logprobs: bool, reply: ChatReply<S>) -> (s: ChatStep<S>)
    requires
        at.attempt < MAX_ATTEMPTS,
    ensures
        s.drop_logprobs == drops_logprobs(want_logprobs, reply),
        reply matches ChatReply::Graded(p) ==> s.backoff is None && s.next == Next::Finish(
            Ok::<Score<S>, String>(Score::Graded(p)),
        ),
        reply matches ChatReply::Unserved(w) ==> s.backoff is None && s.next == Next::Finish(
            Ok::<Score<S>, String>(word_score(w)),
        ),
        reply matches ChatReply::Unnamed(w) ==> s.backoff is None && s.next == Next::Finish(
            Ok::<Score<S>, String>(word_score(w)),
        ),
        reply is NoChoices ==> !s.drop_logprobs && s.backoff is None && fails_now(
            s.next,
            "response carried no choices"@,
        ),
        reply matches ChatReply::Unparsable(e) ==> !s.drop_logprobs && s.backoff is None
            && fails_now(s.next, "bad response: "@ + e@),
        reply matches ChatReply::Status(c, b) ==> (c == 400 && want_logprobs ==> s.drop_logprobs
            && s.backoff is None && failed_with(s.next, at.attempt, status_detail(c, b@))),
        reply matches ChatReply::Status(c, b) ==> (!(c == 400 && want_logprobs) && retryable(c)
            ==> !s.drop_logprobs && s.backoff == Some(at.attempt) && failed_with(
            s.next,
            at.attempt,
            status_line(c),
        )),
        reply matches ChatReply::Status(c, b) ==> (!(c == 400 && want_logprobs) && !retryable(c)
            ==> !s.drop_logprobs && s.backoff is None && fails_now(s.next, status_detail(c, b@))),
        reply matches ChatReply::Transport(m) ==> !s.drop_logprobs && s.backoff == Some(at.attempt)
            && failed_with(s.next, at.attempt, m@),
        s.next matches Next::Again(a) ==> a.attempt == at.attempt + 1,
        at.attempt + 1 == MAX_ATTEMPTS ==> s.next is Finish,
{
    match reply {
        ChatReply::Graded(p) => ChatStep {
            drop_logprobs: false,
            backoff: None,
            next: Next::Finish(Ok(Score::Graded(p))),
        },
        ChatReply::Unserved(w) => {
            let yes = match &w {
                Some(c) => said_yes(Some(c.as_str())),
                None => said_yes(None),
            };
            ChatStep { drop_logprobs: true, backoff: None, next: Next::Finish(Ok(Score::Said(yes))) }
        },
        ChatReply::Unnamed(w) => {
            let yes = match &w {
                Some(c) => said_yes(Some(c.as_str())),
                None => said_yes(None),
            };
            ChatStep {
                drop_logprobs: false,
                backoff: None,
                next: Next::Finish(Ok(Score::Said(yes))),
            }
        },
        ChatReply::NoChoices => ChatStep {
            drop_logprobs: false,
            backoff: None,
            next: Next::Finish(Err(String::from_str("response carried no choices"))),
        },
        ChatReply::Unparsable(e) => ChatStep {
            drop_logprobs: false,
            backoff: None,
            next: Next::Finish(Err(concat_str("bad response: ", e.as_str()))),
        },
        ChatReply::Status(c, b) => {
            if c == 400 && want_logprobs {
                let last = status_detail_string(c, b.as_str());
                let next = next_after_failure(at.attempt, last);
                proof {
                    lemma_after_failure::<Score<S>>(at.attempt, last);
                }
                ChatStep { drop_logprobs: true, backoff: None, next }
            } else if c == 429 || c >= 500 {
                let last = status_line_string(c);
                let next = next_after_failure(at.attempt, last);
                proof {
                    lemma_after_failure::<Score<S>>(at.attempt, last);
                }
                ChatStep { drop_logprobs: false, backoff: Some(at.attempt), next }
            } else {
                ChatStep {
                    drop_logprobs: false,
                    backoff: None,
                    next: Next::Finish(Err(status_detail_string(c, b.as_str()))),
                }
            }
        },
        ChatReply::Transport(m) => {
            let next = next_after_failure(at.attempt, m);
            proof {
                lemma_after_failure::<Score<S>>(at.attempt, m);
            }
            ChatStep { drop_logprobs: false, backoff: Some(at.attempt), next }
        },
    }
}

/// A binary score and a graded one never share a cache entry: the two modes
/// give an endpoint different ids.
pub proof fn law_modes_never_share_an_id(base_url: Seq<char>, model: Seq<char>)
    ensures
        compat_id(base_url, model, true) != compat_id(base_url, model, false),
{
    reveal_strlit("binary");
    reveal_strlit("logprobs");
    assert(compat_id(base_url, model, true).len() != compat_id(base_url, model, false).len());
}

/// A client that has fallen back to the written word stays there: the
/// requests it sends carry no logprob fields, no reply takes it back to graded
/// mode, and its id goes on naming the binary cache.
pub proof fn law_binary_mode_sticks<S>(base_url: Seq<char>, model: Seq<char>, binary: bool, reply: ChatReply<S>)
    requires
        binary,
    ensures
        logprob_fields(!binary) is None,
        mode_after(binary, reply),
        compat_id(base_url, model, mode_after(binary, reply)) == compat_id(base_url, model, true),
{
}

proof fn lemma_lower_keeps_whitespace(c: char)
    ensures
        is_ws(ascii_lower(c)) == is_ws(c),
        ascii_lower(ascii_lower(c)) == ascii_lower(c),
{
    if 'A' <= c && c <= 'Z' {
        let u = c as u32;
        assert(0x41 <= u <= 0x5A);
        assert(((u + 32) as char) as u32 == u + 32);
    }
}

proof fn lemma_trim_start_lower(s: Seq<char>)
    ensures
        trim_start(ascii_lower_seq(s)) == ascii_lower_seq(trim_start(s)),
    decreases s.len(),
{
    if s.len() > 0 {
        lemma_lower_keeps_whitespace(s[0]);
        assert(ascii_lower_seq(s)[0] == ascii_lower(s[0]));
        assert(ascii_lower_seq(s).drop_first() =~= ascii_lower_seq(s.drop_first()));
        lemma_trim_start_lower(s.drop_first());
    } else {
        assert(ascii_lower_seq(s) =~= s);
    }
}

proof fn lemma_trim_end_lower(s: Seq<char>)
    ensures
        trim_end(ascii_lower_seq(s)) == ascii_lower_seq(trim_end(s)),
    decreases s.len(),
{
    if s.len() > 0 {
        lemma_lower_keeps_whitespace(s.last());
        assert(ascii_lower_seq(s).last() == ascii_lower(s.last()));
        assert(ascii_lower_seq(s).drop_last() =~= ascii_lower_seq(s.drop_last()));
        lemma_trim_end_lower(s.drop_last());
    } else {
        assert(ascii_lower_seq(s) =~= s);
    }
}

/// A token votes the same in any ASCII case: its vote is that of its
/// lower-cased spelling, so `No`, `NO` and `no` all vote no and `Yes`, `YES`
/// and `yes` all vote yes.
pub proof fn law_votes_ignore_case(token: Seq<char>)
    ensures
        token_vote(token) == token_vote(ascii_lower_seq(token)),
{
    lemma_trim_start_lower(token);
    lemma_trim_end_lower(trim_start(token));
    let t = trim(token);
    assert(trim(ascii_lower_seq(token)) == ascii_lower_seq(t));
    assert forall|i: int| 0 <= i < t.len() implies ascii_lower(ascii_lower(#[trigger] t[i]))
        == ascii_lower(t[i]) by {
        lemma_lower_keeps_whitespace(t[i]);
    }
    assert(ascii_lower_seq(ascii_lower_seq(t)) =~= ascii_lower_seq(t));
}

/// A written answer reads the same in any ASCII case, and whitespace around
/// it does not count: `Yes`, ` yes` and `YES` all read as yes.
pub proof fn law_written_answers_ignore_case_and_spacing(content: Seq<char>, c: char)
    requires
        is_ws(c),
    ensures
        says_yes(Some(content)) == says_yes(Some(ascii_lower_seq(content))),
        says_yes(Some(seq![c] + content)) == says_yes(Some(content)),
{
    lemma_trim_start_lower(content);
    lemma_trim_end_lower(trim_start(content));
    let t = trim(content);
    assert(trim(ascii_lower_seq(content)) == ascii_lower_seq(t));
    if t.len() > 0 {
        lemma_lower_keeps_whitespace(t[0]);
    }
    assert((seq![c] + content).drop_first() =~= content);
}

/// The two words, and their one-letter forms, vote; nothing else does. A
/// token reading `no` or `n` once trimmed and lower-cased votes no, one
/// reading `yes` or `y` votes yes, and a token whose vote is cast reads as
/// one of the four.
pub proof fn law_only_the_two_words_vote(token: Seq<char>)
    ensures
        ({
            let w = ascii_lower_seq(trim(token));
            &&& (w == "no"@ || w == "n"@) ==> token_vote(token) == Some(false)
            &&& (w == "yes"@ || w == "y"@) ==> token_vote(token) == Some(true)
            &&& token_vote(token) is Some ==> (w == "no"@ || w == "n"@ || w == "yes"@ || w
                == "y"@)
        }),
{
    reveal_strlit("no");
    reveal_strlit("n");
    reveal_strlit("yes");
    reveal_strlit("y");
    assert("no"@ != "yes"@ && "no"@ != "y"@ && "n"@ != "yes"@ && "n"@ != "y"@) by {
        assert("no"@[0] != "yes"@[0]);
        assert("no"@.len() != "y"@.len());
        assert("n"@.len() != "yes"@.len());
        assert("n"@[0] != "y"@[0]);
    }
}

/// A base URL is kept with no trailing slash, so `/chat/completions` joins it
/// with exactly one.
pub proof fn law_base_url_has_no_trailing_slash(s: Seq<char>)
    ensures
        trim_slashes(s).len() == 0 || trim_slashes(s).last() != '/',
        trim_slashes(s).len() <= s.len(),
        trim_slashes(s) == s.take(trim_slashes(s).len() as int),
    decreases s.len(),
{
    if s.len() > 0 && s.last() == '/' {
        law_base_url_has_no_trailing_slash(s.drop_last());
        assert(s.drop_last().take(trim_slashes(s).len() as int) =~= s.take(
            trim_slashes(s).len() as int,
        ));
    } else {
        assert(s.take(s.len() as int) =~= s);
    }
}

} // verus!
