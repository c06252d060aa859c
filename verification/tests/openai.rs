use askgrep::backend::{Attempts, Next};
use askgrep::openai::{chat_step, said_yes, vote_of, ChatReply, OpenAiCompat, Score, TOP_LOGPROBS};

#[test]
fn the_mode_is_part_of_the_cache_key() {
    let c = OpenAiCompat::new("t".into(), "m".into(), "https://x/v1/".into());
    assert_eq!(c.id(false), "openai:https://x/v1:m:logprobs");
    assert_eq!(
        c.id(true),
        "openai:https://x/v1:m:binary",
        "a binary score must not reuse a graded one"
    );
}

#[test]
fn the_question_reads_as_a_sentence() {
    let c = OpenAiCompat::new("t".into(), "m".into(), "https://x/v1".into());
    let b = c.body(
        "writes to disk without checking the error.",
        "fn x() {}",
        true,
    );
    let u = b.user.as_str();
    assert!(
        u.contains("Statement: the code above writes to disk without checking the error."),
        "{u}"
    );
    assert!(u.contains("fn x() {}"));
    assert_eq!(b.top_logprobs, Some(10));
    assert_eq!(TOP_LOGPROBS, 10);
    assert_eq!(c.body("q", "c", false).top_logprobs, None);
}

#[test]
fn trailing_slashes_leave_the_base_url() {
    let c = OpenAiCompat::new("t".into(), "m".into(), "http://localhost:11434/v1//".into());
    assert_eq!(c.chat_url(), "http://localhost:11434/v1/chat/completions");
    assert_eq!(c.authorization(), "Bearer t");
}

#[test]
fn only_yes_and_no_vote() {
    assert_eq!(vote_of("yes"), Some(true));
    assert_eq!(vote_of(" Yes"), Some(true));
    assert_eq!(vote_of("Y"), Some(true));
    assert_eq!(vote_of("no"), Some(false));
    assert_eq!(vote_of("N\n"), Some(false));
    assert_eq!(vote_of("maybe"), None);
    assert_eq!(vote_of("\n"), None);
    assert_eq!(vote_of("yess"), None);
}

#[test]
fn the_written_word_is_read_by_its_first_letter() {
    assert!(said_yes(Some(" Yes.")));
    assert!(said_yes(Some("y")));
    assert!(!said_yes(Some("No")));
    assert!(!said_yes(Some("")));
    assert!(!said_yes(None));
}

fn at(attempt: u32) -> Attempts {
    let mut a = Attempts::first();
    a.attempt = attempt;
    a
}

#[test]
fn a_refused_logprobs_request_falls_back_to_binary_at_once() {
    let s = chat_step::<u8>(at(0), true, ChatReply::Status(400, " logprobs unsupported ".into()));
    assert!(s.drop_logprobs);
    assert_eq!(s.backoff, None);
    match s.next {
        Next::Again(a) => {
            assert_eq!(a.attempt, 1);
            assert_eq!(a.last, "HTTP 400: logprobs unsupported");
        }
        _ => panic!("retried without logprobs"),
    }
    // Without logprobs a 400 is the request's fault and fails at once.
    let s = chat_step::<u8>(at(1), false, ChatReply::Status(400, "bad".into()));
    assert!(!s.drop_logprobs);
    match s.next {
        Next::Finish(Err(e)) => assert_eq!(e, "HTTP 400: bad"),
        _ => panic!("fails"),
    }
}

#[test]
fn a_distribution_naming_neither_word_keeps_the_client_graded() {
    let s = chat_step::<u8>(at(0), true, ChatReply::Unnamed(Some("maybe".into())));
    assert!(!s.drop_logprobs);
    assert!(s.backoff.is_none());
    match s.next {
        Next::Finish(Ok(Score::Said(false))) => {}
        _ => panic!("the word is the score"),
    }
    let s = chat_step::<u8>(at(0), true, ChatReply::Unnamed(Some(" y".into())));
    assert!(!s.drop_logprobs);
    match s.next {
        Next::Finish(Ok(Score::Said(true))) => {}
        _ => panic!("the word is the score"),
    }
}

#[test]
fn a_missing_distribution_reads_the_word() {
    let s = chat_step::<u8>(at(0), true, ChatReply::Unserved(Some("Yes".into())));
    assert!(s.drop_logprobs);
    match s.next {
        Next::Finish(Ok(Score::Said(true))) => {}
        _ => panic!("the word is the score"),
    }
    let s = chat_step::<u8>(at(0), true, ChatReply::Graded(5));
    assert!(!s.drop_logprobs);
    match s.next {
        Next::Finish(Ok(Score::Graded(5))) => {}
        _ => panic!("the distribution is the score"),
    }
    match chat_step::<u8>(at(0), true, ChatReply::NoChoices).next {
        Next::Finish(Err(e)) => assert_eq!(e, "response carried no choices"),
        _ => panic!("no choices is an error"),
    }
}

#[test]
fn a_binary_client_stays_binary() {
    let c = OpenAiCompat::new("t".into(), "m".into(), "https://x/v1".into());
    // In binary mode requests go out without logprob fields.
    assert_eq!(c.body("q", "c", false).top_logprobs, None);
    // A reply that names neither word, to a graded request, keeps it graded;
    // a reply with no distribution at all drops to binary.
    assert!(!chat_step::<u8>(Attempts::first(), true, ChatReply::Unnamed(None)).drop_logprobs);
    assert!(chat_step::<u8>(Attempts::first(), true, ChatReply::Unserved(None)).drop_logprobs);
    assert_eq!(c.id(true), "openai:https://x/v1:m:binary");
}
