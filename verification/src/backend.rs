//! What askgrep needs from a model, and nothing more.
//!
//! One question, one chunk, one probability. This module holds what every
//! backend shares: the cache key that keeps their answers apart, the cache
//! protocol, and the retry policy for a failed request.
use vstd::prelude::*;

use vstd::string::StringSliceAdditionalSpecFns;

use crate::text::{chars_of, decimal, decimal_string, push_char, trim, trim_bounds};

verus! {

// ---------------------------------------------------------------------------
// Cache key
// ---------------------------------------------------------------------------

/// FNV-1a offset basis.
pub const FNV_OFFSET: u64 = 0xcbf2_9ce4_8422_2325;

/// FNV-1a prime.
pub const FNV_PRIME: u64 = 0x1000_0000_01b3;

/// One FNV-1a round: xor the byte in, multiply by the prime modulo 2^64.
pub open spec fn fnv_step(h: u64, b: u8) -> u64 {
    (((h ^ (b as u64)) as nat * FNV_PRIME as nat) % 0x1_0000_0000_0000_0000nat) as u64
}

/// FNV-1a over `bytes`, starting from `h`.
pub open spec fn fnv_fold(h: u64, bytes: Seq<u8>) -> u64
    decreases bytes.len(),
{
    if bytes.len() == 0 {
        h
    } else {
        fnv_fold(fnv_step(h, bytes[0]), bytes.drop_first())
    }
}

/// The lower-case hexadecimal digits.
pub const HEX_DIGITS: [char; 16] = [
    '0',
    '1',
    '2',
    '3',
    '4',
    '5',
    '6',
    '7',
    '8',
    '9',
    'a',
    'b',
    'c',
    'd',
    'e',
    'f',
];

/// `h` as sixteen lower-case hex digits, most significant first, as
/// `{:016x}` writes it.
pub open spec fn hex16(h: u64) -> Seq<char> {
    Seq::new(16, |i: int| HEX_DIGITS@[((h >> ((60 - 4 * i) as u64)) & 0xf) as int])
}

/// The bytes hashed for a cache key: backend id, question and chunk, each pair
/// separated by a zero byte so no two of them can run together.
pub open spec fn key_bytes(id: Seq<u8>, question: Seq<u8>, code: Seq<u8>) -> Seq<u8> {
    id + seq![0u8] + question + seq![0u8] + code
}

/// The cache key for asking `question` about `code` of the backend `id`.
pub open spec fn cache_key(id: &str, question: &str, code: &str) -> Seq<char> {
    hex16(fnv_fold(FNV_OFFSET, key_bytes(id.spec_bytes(), question.spec_bytes(), code.spec_bytes())))
}

pub proof fn lemma_fnv_fold_append(h: u64, a: Seq<u8>, b: Seq<u8>)
    ensures
        fnv_fold(h, a + b) == fnv_fold(fnv_fold(h, a), b),
    decreases a.len(),
{
    if a.len() == 0 {
        assert(a + b =~= b);
    } else {
        lemma_fnv_fold_append(fnv_step(h, a[0]), a.drop_first(), b);
        assert((a + b).drop_first() =~= a.drop_first() + b);
    }
}

/// FNV-1a rounds over `bytes`, starting from `h`.
fn fnv_over(h: u64, bytes: &[u8]) -> (r: u64)
    ensures
        r == fnv_fold(h, bytes@),
{
    let mut acc = h;
    let mut i: usize = 0;
    assert(bytes@.skip(0) =~= bytes@);
    while i < bytes.len()
        invariant
            i <= bytes.len(),
            fnv_fold(h, bytes@) == fnv_fold(acc, bytes@.skip(i as int)),
        decreases bytes.len() - i,
    {
        assert(bytes@.skip(i as int).drop_first() =~= bytes@.skip(i + 1));
        acc = fnv_round(acc, bytes[i]);
        i = i + 1;
    }
    acc
}

/// One FNV-1a round.
fn fnv_round(h: u64, b: u8) -> (r: u64)
    ensures
        r == fnv_step(h, b),
{
    (h ^ (b as u64)).wrapping_mul(FNV_PRIME)
}

/// `h` as sixteen lower-case hex digits.
pub fn hex16_string(h: u64) -> (out: String)
    ensures
        out@ == hex16(h),
{
    let mut out = String::new();
    let mut i: u64 = 0;
    while i < 16
        invariant
            i <= 16,
            out@ == hex16(h).take(i as int),
        decreases 16 - i,
    {
        let shift = 60 - 4 * i;
        let d = (h >> shift) & 0xf;
        assert(d < 16) by (bit_vector)
            requires
                d == (h >> shift) & 0xf,
        ;
        push_char(&mut out, HEX_DIGITS[d as usize]);
        i = i + 1;
        assert(out@ =~= hex16(h).take(i as int));
    }
    assert(hex16(h).take(16) =~= hex16(h));
    out
}

/// FNV-1a over backend id, question and chunk. A cache key, not a signature:
/// the cost of a collision here is one stale probability.
pub fn key(id: &str, question: &str, code: &str) -> (k: String)
    ensures
        k@ == cache_key(id, question, code),
{
    let zero: [u8; 1] = [0u8];
    let h = fnv_over(FNV_OFFSET, id.as_bytes());
    let h = fnv_over(h, zero.as_slice());
    let h = fnv_over(h, question.as_bytes());
    let h = fnv_over(h, zero.as_slice());
    let h = fnv_over(h, code.as_bytes());
    proof {
        let z = seq![0u8];
        assert(zero@ =~= z);
        let a = id.spec_bytes();
        let b = question.spec_bytes();
        let c = code.spec_bytes();
        lemma_fnv_fold_append(FNV_OFFSET, a + z + b + z, c);
        lemma_fnv_fold_append(FNV_OFFSET, a + z + b, z);
        lemma_fnv_fold_append(FNV_OFFSET, a + z, b);
        lemma_fnv_fold_append(FNV_OFFSET, a, z);
    }
    hex16_string(h)
}

// ---------------------------------------------------------------------------
// Cache protocol
// ---------------------------------------------------------------------------

/// What the caller of the cache does next.
pub enum CacheStep<S> {
    /// Read the cache entry of this name; report what it held with
    /// `after_read`.
    Read(String),
    /// Ask the backend; report its answer with `after_score`, handing back
    /// whether the answer is to be stored.
    Ask(bool),
    /// Write the score to the entry of this name, then finish with the score,
    /// fresh. A failed write changes nothing but the next run.
    Store(String, S),
    /// The answer: the score, and whether it came from the cache.
    Finish(Result<(S, bool), String>),
}

/// A step of the cache protocol, its names and messages as text.
pub ghost enum CacheMove<S> {
    Read(Seq<char>),
    Ask(bool),
    Store(Seq<char>, S),
    Finish(Result<(S, bool), Seq<char>>),
}

impl<S> View for CacheStep<S> {
    type V = CacheMove<S>;

    open spec fn view(&self) -> CacheMove<S> {
        match self {
            CacheStep::Read(name) => CacheMove::Read(name@),
            CacheStep::Ask(store) => CacheMove::Ask(*store),
            CacheStep::Store(name, v) => CacheMove::Store(name@, *v),
            CacheStep::Finish(Ok(p)) => CacheMove::Finish(Ok(*p)),
            CacheStep::Finish(Err(e)) => CacheMove::Finish(Err(e@)),
        }
    }
}

/// A backend's answer, its error as text.
pub open spec fn answer_view<S>(scored: Result<S, String>) -> Result<S, Seq<char>> {
    match scored {
        Ok(v) => Ok(v),
        Err(e) => Err(e@),
    }
}

/// The first step: with the cache on (a backend id to key it by), read the
/// entry of the cache key; otherwise ask the backend and store nothing.
pub open spec fn cache_begin<S>(id: Option<&str>, question: &str, code: &str) -> CacheMove<S> {
    match id {
        Some(i) => CacheMove::Read(cache_key(i, question, code)),
        None => CacheMove::Ask(false),
    }
}

/// After a read: a score found is the answer, from the cache; otherwise ask
/// the backend and store its answer.
pub open spec fn cache_after_read<S>(cached: Option<S>) -> CacheMove<S> {
    match cached {
        Some(v) => CacheMove::Finish(Ok((v, true))),
        None => CacheMove::Ask(true),
    }
}

/// After the backend answered, its id being `id_now` by then: an error is the
/// answer; a score is stored, when it is to be, under the key of the mode it
/// was scored in, and is otherwise the answer, fresh.
pub open spec fn cache_after_score<S>(
    store: bool,
    id_now: &str,
    question: &str,
    code: &str,
    scored: Result<S, Seq<char>>,
) -> CacheMove<S> {
    match scored {
        Err(e) => CacheMove::Finish(Err(e)),
        Ok(v) => if store {
            CacheMove::Store(cache_key(id_now, question, code), v)
        } else {
            CacheMove::Finish(Ok((v, false)))
        },
    }
}

/// After storing: the score is the answer, fresh.
pub open spec fn cache_after_store<S>(v: S) -> CacheMove<S> {
    CacheMove::Finish(Ok((v, false)))
}

/// First step of a cached score. `id` is the backend's id when the cache is
/// on and has a directory, and `None` otherwise: the id is only asked for
/// where a key is needed.
pub fn begin_cached<S>(id: Option<&str>, question: &str, code: &str) -> (s: CacheStep<S>)
    ensures
        s@ == cache_begin::<S>(id, question, code),
{
    match id {
        Some(i) => CacheStep::Read(key(i, question, code)),
        None => CacheStep::Ask(false),
    }
}

/// After reading the entry: a score found there is the answer, from the
/// cache; otherwise ask the backend and store its answer.
pub fn after_read<S>(cached: Option<S>) -> (s: CacheStep<S>)
    ensures
        s@ == cache_after_read(cached),
{
    match cached {
        Some(v) => CacheStep::Finish(Ok((v, true))),
        None => CacheStep::Ask(true),
    }
}

/// After the backend answered. The entry name comes from `id_now`, the
/// backend's id as it stands after the score, so a backend that changed mode
/// while scoring (an endpoint found to serve no logprobs) stores the score
/// under the key of the mode that produced it.
pub fn after_score<S>(store: bool, id_now: &str, question: &str, code: &str, scored: Result<
    S,
    String,
>) -> (s: CacheStep<S>)
    ensures
        s@ == cache_after_score(store, id_now, question, code, answer_view(scored)),
{
    match scored {
        Err(e) => CacheStep::Finish(Err(e)),
        Ok(v) => if store {
            CacheStep::Store(key(id_now, question, code), v)
        } else {
            CacheStep::Finish(Ok((v, false)))
        },
    }
}

/// After storing a fresh score: it is the answer, not from the cache.
pub fn after_store<S>(v: S) -> (s: CacheStep<S>)
    ensures
        s@ == cache_after_store(v),
{
    CacheStep::Finish(Ok((v, false)))
}

// ---------------------------------------------------------------------------
// Retries
// ---------------------------------------------------------------------------

/// Requests per question before giving up.
pub const MAX_ATTEMPTS: u32 = 3;

/// Milliseconds to wait before retry `attempt`, counting from zero: 400,
/// doubling each time.
pub fn backoff_millis(attempt: u32) -> (ms: u64)
    requires
        attempt < 64,
    ensures
        ms == 400u64 << attempt,
        attempt <= 55 ==> ms == 400 * vstd::arithmetic::power2::pow2(attempt as nat),
{
    let ms = 400u64 << attempt;
    proof {
        if attempt <= 55 {
            if attempt < 55 {
                vstd::arithmetic::power2::lemma_pow2_strictly_increases(attempt as nat, 55);
            }
            vstd::arithmetic::power2::lemma2_to64_rest();
            assert(400 * vstd::arithmetic::power2::pow2(attempt as nat) <= u64::MAX) by (
            nonlinear_arith)
                requires
                    vstd::arithmetic::power2::pow2(attempt as nat) <= vstd::arithmetic::power2::pow2(
                        55,
                    ),
                    vstd::arithmetic::power2::pow2(55) == 0x80000000000000,
            ;
            vstd::bits::lemma_u64_shl_is_mul(400, attempt as u64);
            assert(400u64 << attempt == 400u64 << (attempt as u64)) by (bit_vector);
        }
    }
    ms
}

/// Where a sequence of attempts stands: which attempt comes next, and what the
/// last failure said.
pub struct Attempts {
    pub attempt: u32,
    pub last: String,
}

impl Attempts {
    /// Before the first request.
    pub fn first() -> (a: Attempts)
        ensures
            a.attempt == 0,
            a.last@ == Seq::<char>::empty(),
    {
        Attempts { attempt: 0, last: String::new() }
    }
}

/// What follows one reply.
pub enum Next<T> {
    /// Send again, from this state.
    Again(Attempts),
    /// The outcome.
    Finish(Result<T, String>),
}

/// After a failed attempt recorded as `last`: the next attempt, or, with the
/// budget spent, that failure as the outcome.
pub open spec fn after_failure<T>(attempt: u32, last: String) -> Next<T> {
    if attempt + 1 < MAX_ATTEMPTS {
        Next::Again(Attempts { attempt: (attempt + 1) as u32, last })
    } else {
        Next::Finish(Err(last))
    }
}

/// `after_failure`, executable.
pub fn next_after_failure<T>(attempt: u32, last: String) -> (n: Next<T>)
    requires
        attempt < MAX_ATTEMPTS,
    ensures
        n == after_failure::<T>(attempt, last),
{
    if attempt + 1 < MAX_ATTEMPTS {
        Next::Again(Attempts { attempt: attempt + 1, last })
    } else {
        Next::Finish(Err(last))
    }
}

/// Whether a status is worth retrying: 429 is the documented rate-limit code,
/// and a 5xx is the server's trouble, not the request's.
pub open spec fn retryable(code: u16) -> bool {
    code == 429 || code >= 500
}

/// `HTTP 503`.
pub open spec fn status_line(code: u16) -> Seq<char> {
    "HTTP "@ + decimal(code as nat)
}

/// `HTTP 404: not found`, the body trimmed.
pub open spec fn status_detail(code: u16, body: Seq<char>) -> Seq<char> {
    status_line(code) + ": "@ + trim(body)
}

/// `HTTP {code}`.
pub fn status_line_string(code: u16) -> (s: String)
    ensures
        s@ == status_line(code),
{
    let mut s = String::from_str("HTTP ");
    let d = decimal_string(code as u64);
    s.append(d.as_str());
    s
}

/// `HTTP {code}: {body, trimmed}`.
pub fn status_detail_string(code: u16, body: &str) -> (s: String)
    ensures
        s@ == status_detail(code, body@),
{
    let mut s = status_line_string(code);
    s.append(": ");
    let cs = chars_of(body);
    let (a, b) = trim_bounds(cs.as_slice());
    let t = body.substring_char(a, b);
    s.append(t);
    s
}

/// `prefix` followed by `rest`.
pub fn concat_str(prefix: &str, rest: &str) -> (s: String)
    ensures
        s@ == prefix@ + rest@,
{
    let mut s = String::from_str(prefix);
    s.append(rest);
    s
}

// ---------------------------------------------------------------------------
// Laws
// ---------------------------------------------------------------------------

/// Whether `s` holds no zero byte.
pub open spec fn nul_free(s: Seq<u8>) -> bool {
    forall|i: int| 0 <= i < s.len() ==> s[i] != 0
}

proof fn lemma_first_zero(a: Seq<u8>, r: Seq<u8>, a2: Seq<u8>, r2: Seq<u8>)
    requires
        nul_free(a),
        nul_free(a2),
        a + seq![0u8] + r == a2 + seq![0u8] + r2,
    ensures
        a == a2,
        r == r2,
{
    let t = a + seq![0u8] + r;
    if a.len() < a2.len() {
        assert(t[a.len() as int] == 0u8);
        assert(t[a.len() as int] == a2[a.len() as int]);
    } else if a2.len() < a.len() {
        assert(t[a2.len() as int] == 0u8);
        assert(t[a2.len() as int] == a[a2.len() as int]);
    }
    assert(a =~= t.take(a.len() as int));
    assert(a2 =~= t.take(a2.len() as int));
    assert(r =~= t.skip(a.len() + 1 as int));
    assert(r2 =~= t.skip(a2.len() + 1 as int));
}

/// The separators keep the three parts of a key apart: for a backend id and a
/// question with no zero byte in them, the bytes hashed determine id,
/// question and chunk. `("a", "bc", "d")` and `("ab", "c", "d")` hash
/// different inputs.
pub proof fn law_key_parts_stay_apart(
    id: Seq<u8>,
    question: Seq<u8>,
    code: Seq<u8>,
    id2: Seq<u8>,
    question2: Seq<u8>,
    code2: Seq<u8>,
)
    requires
        nul_free(id),
        nul_free(question),
        nul_free(id2),
        nul_free(question2),
        key_bytes(id, question, code) == key_bytes(id2, question2, code2),
    ensures
        id == id2,
        question == question2,
        code == code2,
{
    let z = seq![0u8];
    assert(key_bytes(id, question, code) =~= id + z + (question + z + code));
    assert(key_bytes(id2, question2, code2) =~= id2 + z + (question2 + z + code2));
    lemma_first_zero(id, question + z + code, id2, question2 + z + code2);
    lemma_first_zero(question, code, question2, code2);
}

/// The cache key hashes all three of its parts: it is FNV-1a, from the offset
/// basis, over the backend id's bytes, a zero byte, the question's bytes, a
/// zero byte and the chunk's bytes, written as sixteen hex digits. For ids and
/// questions without a zero byte, two calls that differ in any part, the
/// question included, hash different bytes.
pub proof fn law_key_hashes_id_question_and_code(
    id: &str,
    question: &str,
    code: &str,
    id2: &str,
    question2: &str,
    code2: &str,
)
    requires
        nul_free(id.spec_bytes()),
        nul_free(question.spec_bytes()),
        nul_free(id2.spec_bytes()),
        nul_free(question2.spec_bytes()),
        id.spec_bytes() != id2.spec_bytes() || question.spec_bytes() != question2.spec_bytes()
            || code.spec_bytes() != code2.spec_bytes(),
    ensures
        cache_key(id, question, code) == hex16(
            fnv_fold(
                FNV_OFFSET,
                id.spec_bytes() + seq![0u8] + question.spec_bytes() + seq![0u8] + code.spec_bytes(),
            ),
        ),
        cache_key(id2, question2, code2) == hex16(
            fnv_fold(
                FNV_OFFSET,
                id2.spec_bytes() + seq![0u8] + question2.spec_bytes() + seq![0u8]
                    + code2.spec_bytes(),
            ),
        ),
        id.spec_bytes() + seq![0u8] + question.spec_bytes() + seq![0u8] + code.spec_bytes()
            != id2.spec_bytes() + seq![0u8] + question2.spec_bytes() + seq![0u8]
            + code2.spec_bytes(),
{
    if id.spec_bytes() + seq![0u8] + question.spec_bytes() + seq![0u8] + code.spec_bytes()
        == id2.spec_bytes() + seq![0u8] + question2.spec_bytes() + seq![0u8] + code2.spec_bytes() {
        law_key_parts_stay_apart(
            id.spec_bytes(),
            question.spec_bytes(),
            code.spec_bytes(),
            id2.spec_bytes(),
            question2.spec_bytes(),
            code2.spec_bytes(),
        );
    }
}

/// A rate limit (429) and every server error (5xx and above) are retried;
/// any other 4xx is the request's own fault and is not.
pub proof fn law_server_errors_are_retried(code: u16)
    ensures
        (code == 429 || code >= 500) ==> retryable(code),
        (400 <= code < 500 && code != 429) ==> !retryable(code),
{
}

/// A retried failure is recorded and tried again while attempts last: after
/// the failure of any attempt but the last, the next attempt is the one after
/// it and carries that failure as its last; after the last, the failure is
/// the outcome.
pub proof fn law_failures_are_retried_while_attempts_last<T>(attempt: u32, last: String)
    requires
        attempt < MAX_ATTEMPTS,
    ensures
        attempt + 1 < MAX_ATTEMPTS ==> (after_failure::<T>(attempt, last) matches Next::Again(a)
            && a.attempt == attempt + 1 && a.last == last),
        attempt + 1 == MAX_ATTEMPTS ==> after_failure::<T>(attempt, last) == Next::<T>::Finish(
            Err(last),
        ),
{
}

/// A cache key is always sixteen lower-case hex digits.
pub proof fn law_key_is_sixteen_hex_digits(h: u64)
    ensures
        hex16(h).len() == 16,
        forall|i: int| 0 <= i < 16 ==> HEX_DIGITS@.contains(#[trigger] hex16(h)[i]),
{
    assert forall|i: int| 0 <= i < 16 implies HEX_DIGITS@.contains(#[trigger] hex16(h)[i]) by {
        let sh = (60 - 4 * i) as u64;
        let d = (h >> sh) & 0xf;
        assert(d < 16) by (bit_vector)
            requires
                d == (h >> sh) & 0xf,
        ;
        assert(HEX_DIGITS@[d as int] == hex16(h)[i]);
    }
}

/// What one run stores, the next run with the same backend id, question and
/// chunk reads back from the cache without asking the backend, given a store
/// that gives back what was written to it. The first run misses, asks, stores
/// under the very entry it read, and answers fresh; the second answers from
/// the cache.
pub proof fn law_cache_round_trip<S>(
    id: &str,
    question: &str,
    code: &str,
    v: S,
    store: Map<Seq<char>, S>,
)
    requires
        !store.contains_key(cache_key(id, question, code)),
    ensures
        ({
            let k = cache_key(id, question, code);
            &&& cache_begin::<S>(Some(id), question, code) == CacheMove::<S>::Read(k)
            &&& cache_after_read::<S>(store.get(k)) == CacheMove::<S>::Ask(true)
            &&& cache_after_score::<S>(true, id, question, code, Ok(v)) == CacheMove::Store(k, v)
            &&& cache_after_store(v) == CacheMove::Finish(Ok::<(S, bool), Seq<char>>((v, false)))
            &&& cache_after_read::<S>(store.insert(k, v).get(k)) == CacheMove::Finish(
                Ok::<(S, bool), Seq<char>>((v, true)),
            )
        }),
{
    let k = cache_key(id, question, code);
    assert(store.insert(k, v).contains_key(k));
}

/// Each retry waits twice as long as the one before.
pub proof fn law_backoff_doubles(attempt: u32)
    requires
        attempt < 55,
    ensures
        400 * vstd::arithmetic::power2::pow2((attempt + 1) as nat) == 2 * (400
            * vstd::arithmetic::power2::pow2(attempt as nat)),
{
    vstd::arithmetic::power2::lemma_pow2_unfold((attempt + 1) as nat);
}

} // verus!
