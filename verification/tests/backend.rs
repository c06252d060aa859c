use askgrep::backend::{
    after_read, after_score, after_store, backoff_millis, begin_cached, key, Attempts, CacheStep,
};

#[test]
fn the_cache_key_separates_its_three_parts() {
    // Without separators these would collide pairwise.
    assert_ne!(key("a", "bc", "d"), key("ab", "c", "d"));
    assert_ne!(key("a", "b", "cd"), key("a", "bc", "d"));
    assert_eq!(key("a", "b", "c"), key("a", "b", "c"));
}

#[test]
fn switching_backend_invalidates_the_cache() {
    assert_ne!(key("jev:jev-latest", "q", "code"), key("openai:gpt-4o", "q", "code"));
}

#[test]
fn the_key_is_fnv1a_written_as_sixteen_hex_digits() {
    // FNV-1a of the empty input is the offset basis itself; here the input is
    // the two separator bytes alone.
    let mut h: u64 = 0xcbf2_9ce4_8422_2325;
    for b in [0u8, 0u8] {
        h ^= b as u64;
        h = h.wrapping_mul(0x1000_0000_01b3);
    }
    assert_eq!(key("", "", ""), format!("{h:016x}"));
    let k = key("jev:jev-latest", "q", "code");
    assert_eq!(k.len(), 16);
    assert!(k.chars().all(|c| c.is_ascii_hexdigit() && !c.is_ascii_uppercase()));
}

#[test]
fn backoff_doubles_from_four_hundred_milliseconds() {
    assert_eq!(backoff_millis(0), 400);
    assert_eq!(backoff_millis(1), 800);
    assert_eq!(backoff_millis(2), 1600);
}

#[test]
fn a_cache_hit_never_asks_the_backend() {
    match begin_cached::<u8>(Some("id"), "q", "code") {
        CacheStep::Read(name) => {
            assert_eq!(name, key("id", "q", "code"));
            match after_read(Some(7u8)) {
                CacheStep::Finish(Ok((v, cached))) => {
                    assert_eq!(v, 7);
                    assert!(cached);
                }
                _ => panic!("a hit is the answer"),
            }
        }
        _ => panic!("an enabled cache is read first"),
    }
}

#[test]
fn a_miss_asks_and_stores_under_the_key() {
    let name = key("id", "q", "code");
    match after_read::<u8>(None) {
        CacheStep::Ask(true) => match after_score(true, "id", "q", "code", Ok(3u8)) {
            CacheStep::Store(n2, v) => {
                assert_eq!(n2, name);
                match after_store(v) {
                    CacheStep::Finish(Ok((3, false))) => {}
                    _ => panic!("a stored score is fresh"),
                }
            }
            _ => panic!("a fresh score is stored"),
        },
        _ => panic!("a miss asks, to store"),
    }
}

#[test]
fn a_score_is_stored_under_the_mode_it_was_scored_in() {
    // Read under the graded id; the endpoint fell back to binary while scoring.
    let graded = "openai:https://x/v1:m:logprobs";
    let binary = "openai:https://x/v1:m:binary";
    match begin_cached::<u8>(Some(graded), "q", "code") {
        CacheStep::Read(name) => assert_eq!(name, key(graded, "q", "code")),
        _ => panic!("an enabled cache is read first"),
    }
    match after_score(true, binary, "q", "code", Ok(1u8)) {
        CacheStep::Store(name, 1) => {
            assert_eq!(name, key(binary, "q", "code"));
            assert_ne!(name, key(graded, "q", "code"));
        }
        _ => panic!("a fresh score is stored"),
    }
}

#[test]
fn a_stored_score_is_what_the_next_run_reads() {
    // First run: miss, ask, store.
    let first = match begin_cached::<u8>(Some("id"), "q", "code") {
        CacheStep::Read(name) => name,
        _ => panic!("read first"),
    };
    let stored = match after_read::<u8>(None) {
        CacheStep::Ask(store) => match after_score(store, "id", "q", "code", Ok(9u8)) {
            CacheStep::Store(name, v) => (name, v),
            _ => panic!("stored"),
        },
        _ => panic!("asked"),
    };
    assert_eq!(stored.0, first);
    // Second run reads the same entry and gets the score back, from the cache.
    match begin_cached::<u8>(Some("id"), "q", "code") {
        CacheStep::Read(name) => assert_eq!(name, stored.0),
        _ => panic!("read first"),
    }
    match after_read(Some(stored.1)) {
        CacheStep::Finish(Ok((9, true))) => {}
        _ => panic!("a hit"),
    }
}

#[test]
fn a_disabled_cache_is_never_read_or_written() {
    match begin_cached::<u8>(None, "q", "code") {
        CacheStep::Ask(false) => {}
        _ => panic!("no cache asks directly"),
    }
    match after_score::<u8>(false, "", "q", "code", Ok(1)) {
        CacheStep::Finish(Ok((1, false))) => {}
        _ => panic!("nothing to store"),
    }
    match after_score::<u8>(true, "id", "q", "code", Err("HTTP 401: no".to_string())) {
        CacheStep::Finish(Err(e)) => assert_eq!(e, "HTTP 401: no"),
        _ => panic!("an error is the answer"),
    }
    let a = Attempts::first();
    assert_eq!(a.attempt, 0);
    assert_eq!(a.last, "");
}
