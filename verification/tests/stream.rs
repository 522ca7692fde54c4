use std::sync::Arc;

use s2_input::batch::S2ReadBatch;
use s2_input::config::{
    default_reconnect_timeout_secs, default_request_timeout_secs, default_start_seq_num,
    S2InputConfig,
};
use s2_input::error::S2Error;
use s2_input::stream::{open_request, Received, S2EventStream, StreamStep};

fn config(endpoint_url: &str, auth_token: Option<&str>) -> S2InputConfig {
    S2InputConfig {
        endpoint_url: endpoint_url.to_string(),
        basin: "test-basin".to_string(),
        stream: "events".to_string(),
        auth_token: auth_token.map(|token| token.to_string()),
        start_seq_num: default_start_seq_num(),
        request_timeout_secs: default_request_timeout_secs(),
        reconnect_timeout_secs: default_reconnect_timeout_secs(),
    }
}

fn stream() -> S2EventStream {
    S2EventStream::new(Arc::new(config("http://localhost:7070", None)))
}

fn header(name: &str, value: &str) -> (String, String) {
    (name.to_string(), value.to_string())
}

#[test]
fn defaults() {
    assert_eq!(default_start_seq_num(), 0);
    assert_eq!(default_request_timeout_secs(), 30);
    assert_eq!(default_reconnect_timeout_secs(), 1);
}

#[test]
fn request_without_token() {
    let request = open_request(&config("http://localhost:7070", None), 0);
    assert_eq!(
        request.url,
        "http://localhost:7070/v1/streams/events/records?seq_num=0"
    );
    assert_eq!(
        request.headers,
        vec![
            header("Accept", "text/event-stream"),
            header("S2-Basin", "test-basin"),
        ]
    );
    assert_eq!(request.timeout_secs, 30);
}

#[test]
fn request_with_token() {
    let request = open_request(&config("http://localhost:7070", Some("abc")), 18446744073709551615);
    assert_eq!(
        request.url,
        "http://localhost:7070/v1/streams/events/records?seq_num=18446744073709551615"
    );
    assert_eq!(request.headers.len(), 3);
    assert_eq!(request.headers[2], header("Authorization", "Bearer abc"));
}

#[test]
fn trailing_slashes_make_no_difference() {
    let plain = open_request(&config("http://localhost:7070", None), 120);
    let slashes = open_request(&config("http://localhost:7070///", None), 120);
    assert_eq!(plain, slashes);
    let only = open_request(&config("//", None), 5);
    assert_eq!(only.url, "/v1/streams/events/records?seq_num=5");
}

#[test]
fn stream_opens_reads_and_decodes() {
    let mut stream = stream();
    let step = stream.next_step(42);
    assert_eq!(
        step,
        StreamStep::Open(open_request(&config("http://localhost:7070", None), 42))
    );
    assert_eq!(stream.opened(Ok(200)), Ok(()));
    assert_eq!(stream.next_step(42), StreamStep::Read);
    assert_eq!(
        stream.received(Some(Ok(b"data: one\n\ndata: two\n\nda".to_vec()))),
        Ok(Received::Chunk)
    );
    assert_eq!(stream.next_step(42), StreamStep::Decode(b"one".to_vec()));
    assert_eq!(stream.next_step(42), StreamStep::Decode(b"two".to_vec()));
    assert_eq!(stream.next_step(42), StreamStep::Read);
    assert_eq!(
        stream.received(Some(Ok(b"ta: three\n\n".to_vec()))),
        Ok(Received::Chunk)
    );
    assert_eq!(stream.next_step(42), StreamStep::Decode(b"three".to_vec()));
}

#[test]
fn stream_opens_again_after_its_end() {
    let mut stream = stream();
    assert_eq!(stream.opened(Ok(204)), Ok(()));
    assert_eq!(stream.received(None), Ok(Received::End));
    assert!(matches!(stream.next_step(7), StreamStep::Open(_)));
}

#[test]
fn stream_opens_again_after_a_disconnect() {
    let mut stream = stream();
    assert_eq!(stream.opened(Ok(299)), Ok(()));
    assert_eq!(
        stream.received(Some(Ok(b"data: kept\n\n".to_vec()))),
        Ok(Received::Chunk)
    );
    stream.disconnect();
    assert_eq!(stream.next_step(7), StreamStep::Decode(b"kept".to_vec()));
    assert!(matches!(stream.next_step(7), StreamStep::Open(_)));
}

#[test]
fn stream_refuses_other_status_codes() {
    for status in [100, 199, 300, 404, 500, 999] {
        let mut stream = stream();
        assert_eq!(stream.opened(Ok(status)), Err(S2Error::Status { status }));
        assert!(matches!(stream.next_step(0), StreamStep::Open(_)));
    }
}

#[test]
fn stream_reports_failed_requests_and_reads() {
    let mut stream = stream();
    assert_eq!(
        stream.opened(Err("refused".to_string())),
        Err(S2Error::Request {
            error: "refused".to_string()
        })
    );
    assert_eq!(stream.opened(Ok(200)), Ok(()));
    assert_eq!(
        stream.received(Some(Err("reset".to_string()))),
        Err(S2Error::Read {
            error: "reset".to_string()
        })
    );
    assert_eq!(stream.next_step(0), StreamStep::Read);
}

#[test]
fn decoded_batches_and_errors() {
    let batch = S2ReadBatch {
        start: None,
        records: Vec::new(),
    };
    assert_eq!(
        S2EventStream::decoded(b"{}".to_vec(), Ok(batch)),
        Ok(S2ReadBatch {
            start: None,
            records: Vec::new()
        })
    );
    assert_eq!(
        S2EventStream::decoded(b"x".to_vec(), Err("bad".to_string())),
        Err(S2Error::Decode {
            payload: b"x".to_vec(),
            error: "bad".to_string()
        })
    );
}

#[test]
fn message_of_decode() {
    let error = S2Error::Decode {
        payload: b"a\xffb".to_vec(),
        error: "expected value".to_string(),
    };
    assert_eq!(
        error.message(),
        "failed to decode S2 SSE payload as JSON (payload=a\u{fffd}b): expected value"
    );
}

#[test]
fn message_of_read() {
    let error = S2Error::Read {
        error: "reset".to_string(),
    };
    assert_eq!(error.message(), "error while reading S2 stream: reset");
}

#[test]
fn message_of_request() {
    let error = S2Error::Request {
        error: "refused".to_string(),
    };
    assert_eq!(error.message(), "refused");
}

#[test]
fn message_of_status() {
    assert_eq!(
        S2Error::Status { status: 404 }.message(),
        "S2 stream request failed with HTTP status 404 Not Found"
    );
    assert_eq!(
        S2Error::Status { status: 799 }.message(),
        "S2 stream request failed with HTTP status 799 <unknown status code>"
    );
}

#[test]
fn message_of_resume_info() {
    let error = S2Error::ResumeInfo {
        error: "missing field `seq_numbers`".to_string(),
    };
    assert_eq!(error.message(), "missing field `seq_numbers`");
}

#[test]
fn messages_of_replay() {
    assert_eq!(
        S2Error::ReplayEnded.message(),
        "unexpected end of S2 stream while replaying checkpoint"
    );
    assert_eq!(
        S2Error::ReplayGap {
            expected: 10,
            received: 4096
        }
        .message(),
        "S2 replay gap detected: expected seq_num 10, received 4096"
    );
    assert_eq!(
        S2Error::ReplayStalled { seq_num: 9 }.message(),
        "S2 replay did not progress at seq_num 9"
    );
}

#[test]
fn message_of_input_gap() {
    assert_eq!(
        S2Error::InputGap {
            expected: 0,
            received: 100
        }
        .message(),
        "S2 input gap detected: expected seq_num 0, received 100"
    );
}
