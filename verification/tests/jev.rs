use askgrep::backend::{Attempts, Next};
use askgrep::jev::{jev_step, Jev, JevReply, QUESTION_TYPE};

#[test]
fn the_question_is_spliced_into_a_sentence_about_the_state() {
    let j = Jev::new("t".into(), "jev-latest".into());
    let b = j.body("writes to disk without checking the error.", "fn x() {}");
    assert_eq!(
        b.instructions,
        "The code in `state` writes to disk without checking the error."
    );
    assert_eq!(b.state, "fn x() {}");
    assert_eq!(b.kind, "noul");
    assert_eq!(QUESTION_TYPE, "noul");
    assert_eq!(j.id(), "jev:jev-latest");
    assert_eq!(j.authorization(), "Bearer t");
}

fn at(attempt: u32) -> Attempts {
    let mut a = Attempts::first();
    a.attempt = attempt;
    a
}

#[test]
fn rate_limits_and_server_errors_are_retried_then_reported() {
    let s = jev_step::<u8>(at(0), JevReply::Status(429, "slow down".into()));
    assert_eq!(s.backoff, Some(0));
    match s.next {
        Next::Again(a) => {
            assert_eq!(a.attempt, 1);
            assert_eq!(a.last, "HTTP 429");
        }
        _ => panic!("429 is retried"),
    }
    let s = jev_step::<u8>(at(2), JevReply::Status(503, "".into()));
    assert_eq!(s.backoff, Some(2));
    match s.next {
        Next::Finish(Err(e)) => assert_eq!(e, "HTTP 503"),
        _ => panic!("the third failure is the answer"),
    }
}

#[test]
fn a_client_error_fails_at_once_with_the_body() {
    let s = jev_step::<u8>(at(0), JevReply::Status(401, "  bad token \n".into()));
    assert_eq!(s.backoff, None);
    match s.next {
        Next::Finish(Err(e)) => assert_eq!(e, "HTTP 401: bad token"),
        _ => panic!("401 is not retried"),
    }
}

#[test]
fn transport_failures_are_retried_and_answers_returned() {
    let s = jev_step::<u8>(at(1), JevReply::Transport("connection reset".into()));
    assert_eq!(s.backoff, Some(1));
    match s.next {
        Next::Again(a) => {
            assert_eq!(a.attempt, 2);
            assert_eq!(a.last, "connection reset");
        }
        _ => panic!("a transport failure is retried"),
    }
    match jev_step::<u8>(at(0), JevReply::Answered(9)).next {
        Next::Finish(Ok(9)) => {}
        _ => panic!("an answer is returned"),
    }
    match jev_step::<u8>(at(0), JevReply::Unanswered).next {
        Next::Finish(Err(e)) => assert_eq!(e, "response carried no answer for the question"),
        _ => panic!("no answer is an error"),
    }
    match jev_step::<u8>(at(0), JevReply::Unparsable("eof".into())).next {
        Next::Finish(Err(e)) => assert_eq!(e, "bad response: eof"),
        _ => panic!("a bad body is an error"),
    }
}
