use std::hash::Hasher;

use s2_input::batch::{S2Cursor, S2ReadBatch, S2Record};
use s2_input::clock::Timestamp;
use s2_input::config::S2InputConfig;
use s2_input::contents::{BufferSize, Contents};
use s2_input::endpoint::{FtModel, S2InputEndpoint};
use s2_input::error::S2Error;
use s2_input::metadata::Metadata;
use s2_input::reader::{ReplayingReader, S2InputReader, Start};
use s2_input::replay::{Replay, ReplayAdmission, Replayed};
use s2_input::stream::{Received, S2EventStream, StreamStep};
use s2_input::worker::{Command, CommandAction, Extended, Parsed, ReadAction, Worker};

const EMPTY_HASH: u64 = 0x2d06_8005_38d3_94c2;

const NOW: Timestamp = Timestamp { secs: 1000, nanos: 5 };

fn config(start_seq_num: u64) -> S2InputConfig {
    S2InputConfig {
        endpoint_url: "http://localhost:7070".to_string(),
        basin: "test-basin".to_string(),
        stream: "events".to_string(),
        auth_token: Some("ignored".to_string()),
        start_seq_num,
        request_timeout_secs: 30,
        reconnect_timeout_secs: 3,
    }
}

fn open(start_seq_num: u64, resume_info: Option<Result<Metadata, String>>) -> S2InputReader {
    let endpoint = S2InputEndpoint::new(config(start_seq_num)).unwrap();
    match endpoint.open(resume_info) {
        Ok(reader) => reader,
        Err(error) => panic!("{}", error.message()),
    }
}

fn worker(start_seq_num: u64) -> Worker<String> {
    open(start_seq_num, None).into_worker()
}

fn contents(body: &str) -> Contents {
    Contents {
        size: BufferSize {
            records: 1,
            bytes: body.len(),
        },
        hash_input: body.as_bytes().to_vec(),
    }
}

fn parsed(body: &str) -> Option<Parsed<String>> {
    Some(Parsed {
        buffer: body.to_string(),
        contents: contents(body),
    })
}

fn at(secs: i64) -> Timestamp {
    Timestamp { secs, nanos: 0 }
}

fn batch(seq_num: u64, bodies: &[&str]) -> S2ReadBatch {
    S2ReadBatch {
        start: Some(S2Cursor { seq_num }),
        records: bodies
            .iter()
            .map(|body| S2Record {
                body: body.to_string(),
                seq_num: None,
            })
            .collect(),
    }
}

fn streamed_hash(bodies: &[&str]) -> u64 {
    let mut hasher = xxhash_rust::xxh3::Xxh3Default::new();
    for body in bodies {
        hasher.write(body.as_bytes());
    }
    hasher.finish()
}

fn admission(bodies: &[&str], failure: Option<S2Error>) -> Result<ReplayAdmission, S2Error> {
    Ok(ReplayAdmission {
        bodies: bodies.iter().map(|body| body.to_string()).collect(),
        failure,
    })
}

#[test]
fn endpoint_is_exactly_once() {
    let endpoint = S2InputEndpoint::new(config(0)).unwrap();
    assert_eq!(endpoint.fault_tolerance(), Some(FtModel::ExactlyOnce));
}

#[test]
fn reader_starts_where_the_configuration_says() {
    assert_eq!(worker(17).next_seq_num(), 17);
}

#[test]
fn reader_resumes_at_the_end_of_the_saved_range() {
    let saved = Metadata { seq_numbers: 3..8 };
    let worker: Worker<String> = open(17, Some(Ok(saved))).into_worker();
    assert_eq!(worker.next_seq_num(), 8);
}

#[test]
fn reader_refuses_a_position_that_cannot_be_decoded() {
    let endpoint = S2InputEndpoint::new(config(0)).unwrap();
    match endpoint.open(Some(Err("bad".to_string()))) {
        Ok(_) => panic!("opened"),
        Err(error) => assert_eq!(
            error,
            S2Error::ResumeInfo {
                error: "bad".to_string()
            }
        ),
    }
}

#[test]
fn resume_info_and_default() {
    assert_eq!(
        Metadata::from_resume_info(None, 9),
        Ok(Metadata { seq_numbers: 9..9 })
    );
    assert_eq!(
        Metadata::from_resume_info(Some(Ok(Metadata { seq_numbers: 1..4 })), 9),
        Ok(Metadata { seq_numbers: 1..4 })
    );
}

#[test]
fn commands_while_idle() {
    let mut worker = worker(0);
    assert!(!worker.is_extending());
    assert_eq!(worker.on_command(Command::Pause), CommandAction::Continue);
    assert_eq!(worker.on_command(Command::Queue), CommandAction::Flush);
    assert_eq!(worker.on_command(Command::Disconnect), CommandAction::Stop);
    assert!(!worker.is_extending());
    assert_eq!(worker.on_command(Command::Extend), CommandAction::Continue);
    assert!(worker.is_extending());
}

#[test]
fn commands_while_reading() {
    let mut worker = worker(0);
    worker.on_command(Command::Extend);
    assert_eq!(worker.on_command(Command::Extend), CommandAction::Continue);
    assert_eq!(worker.on_command(Command::Queue), CommandAction::Flush);
    assert!(worker.is_extending());
    assert_eq!(worker.on_command(Command::Pause), CommandAction::CloseStream);
    assert!(!worker.is_extending());
}

#[test]
fn a_batch_is_ingested() {
    let worker = worker(5);
    match worker.on_read_at(Ok(Some(batch(4, &["x", "a", "b"]))), NOW) {
        ReadAction::Ingest(admission) => {
            assert_eq!(admission.bodies, vec!["a".to_string(), "b".to_string()]);
            assert_eq!(admission.failure, None);
            assert_eq!(admission.timestamp, NOW);
        }
        other => panic!("{:?}", other),
    }
}

#[test]
fn a_gap_is_fatal() {
    let worker = worker(5);
    match worker.on_read(Ok(Some(batch(7, &["a"])))) {
        ReadAction::Ingest(admission) => {
            assert!(admission.bodies.is_empty());
            assert_eq!(
                admission.failure,
                Some(S2Error::InputGap {
                    expected: 5,
                    received: 7
                })
            );
        }
        other => panic!("{:?}", other),
    }
}

#[test]
fn the_clock_moves_on() {
    let worker = worker(0);
    match worker.on_read(Ok(Some(batch(0, &["a"])))) {
        ReadAction::Ingest(admission) => {
            assert!(admission.timestamp.secs > 1_600_000_000);
            assert!(admission.timestamp.nanos < 1_000_000_000);
        }
        other => panic!("{:?}", other),
    }
}

#[test]
fn the_end_of_the_stream_is_waited_out() {
    assert_eq!(worker(0).on_read(Ok(None)), ReadAction::Wait { secs: 3 });
}

#[test]
fn errors_are_reported_and_waited_out() {
    assert_eq!(
        worker(0).on_read(Err(S2Error::Status { status: 503 })),
        ReadAction::Report {
            error: S2Error::Status { status: 503 },
            secs: 3
        }
    );
}

#[test]
fn an_empty_queue_is_flushed() {
    let mut worker = worker(12);
    assert!(worker.can_flush(10));
    assert_eq!(
        worker.flush_queue_at(10, NOW),
        Extended {
            total: BufferSize {
                records: 0,
                bytes: 0
            },
            hash: EMPTY_HASH,
            metadata: Metadata {
                seq_numbers: 12..12
            },
            watermark: NOW,
            buffers: Vec::new(),
        }
    );
    let extended = worker.flush_queue(10);
    assert_eq!(extended.hash, EMPTY_HASH);
    assert!(extended.watermark.secs > 1_600_000_000);
}

#[test]
fn the_queue_is_flushed_in_batches() {
    let mut worker = worker(5);
    worker.enqueue(parsed("alpha"), at(1));
    worker.enqueue(None, at(1));
    worker.enqueue(parsed("gamma!"), at(2));
    assert_eq!(worker.next_seq_num(), 8);
    assert_eq!(
        worker.flush_queue_at(2, NOW),
        Extended {
            total: BufferSize {
                records: 1,
                bytes: 5
            },
            hash: streamed_hash(&["alpha"]),
            metadata: Metadata { seq_numbers: 5..7 },
            watermark: at(1),
            buffers: vec!["alpha".to_string()],
        }
    );
    worker.enqueue(parsed("delta"), at(3));
    assert_eq!(
        worker.flush_queue_at(10, NOW),
        Extended {
            total: BufferSize {
                records: 2,
                bytes: 11
            },
            hash: streamed_hash(&["gamma!", "delta"]),
            metadata: Metadata { seq_numbers: 7..9 },
            watermark: at(3),
            buffers: vec!["gamma!".to_string(), "delta".to_string()],
        }
    );
    assert_eq!(worker.flush_queue(10).metadata, Metadata { seq_numbers: 9..9 });
}

#[test]
fn commands_keep_records() {
    let mut worker = worker(3);
    worker.enqueue(parsed("a"), at(1));
    worker.on_command(Command::Extend);
    worker.on_command(Command::Pause);
    worker.on_command(Command::Queue);
    assert_eq!(worker.next_seq_num(), 4);
    let extended = worker.flush_queue_at(10, NOW);
    assert_eq!(extended.metadata, Metadata { seq_numbers: 3..4 });
    assert_eq!(extended.buffers, vec!["a".to_string()]);
}

#[test]
fn every_record_is_handed_on_once() {
    let bodies = ["a", "b", "c", "d", "e", "f", "g"];
    let mut worker = worker(100);
    let mut next = 100;
    let mut handed_on = Vec::new();
    for (i, body) in bodies.iter().enumerate() {
        worker.enqueue(parsed(body), at(i as i64));
        if i % 3 == 2 {
            let extended = worker.flush_queue_at(2, NOW);
            assert_eq!(extended.metadata.seq_numbers.start, next);
            next = extended.metadata.seq_numbers.end;
            handed_on.extend(extended.buffers);
        }
    }
    let extended = worker.flush_queue_at(100, NOW);
    assert_eq!(extended.metadata.seq_numbers.start, next);
    assert_eq!(extended.metadata.seq_numbers.end, 107);
    handed_on.extend(extended.buffers);
    assert_eq!(handed_on, bodies);
}

#[test]
fn a_restart_goes_on_behind_the_last_batch() {
    let mut worker = worker(0);
    worker.enqueue(parsed("a"), at(1));
    worker.enqueue(parsed("b"), at(1));
    let last = worker.flush_queue_at(1, NOW);
    let end = last.metadata.seq_numbers.end;
    let mut resumed: Worker<String> = open(0, Some(Ok(last.metadata))).into_worker();
    assert_eq!(resumed.next_seq_num(), end);
    resumed.enqueue(parsed("b"), at(2));
    let first = resumed.flush_queue_at(10, NOW);
    assert_eq!(first.metadata, Metadata { seq_numbers: 1..2 });
}

#[test]
fn records_are_queued_under_their_numbers() {
    let mut worker = worker(5);
    let mut batch = batch(0, &[]);
    for (seq_num, body) in [(4, "x"), (5, "a"), (5, "y"), (6, "b")] {
        batch.records.push(S2Record {
            body: body.to_string(),
            seq_num: Some(seq_num),
        });
    }
    if let ReadAction::Ingest(admission) = worker.on_read_at(Ok(Some(batch)), NOW) {
        for body in &admission.bodies {
            worker.enqueue(parsed(body), admission.timestamp);
        }
    }
    let extended = worker.flush_queue_at(10, at(9));
    assert_eq!(extended.metadata, Metadata { seq_numbers: 5..7 });
    assert_eq!(extended.buffers, vec!["a".to_string(), "b".to_string()]);
    assert_eq!(extended.watermark, NOW);
}

#[test]
fn a_batch_size_of_nothing_counts_as_one() {
    let mut worker = worker(0);
    worker.enqueue(parsed("a"), at(1));
    worker.enqueue(parsed("b"), at(2));
    let extended = worker.flush_queue_at(0, NOW);
    assert_eq!(extended.metadata, Metadata { seq_numbers: 0..1 });
    assert_eq!(extended.buffers, vec!["a".to_string()]);
}

#[test]
fn totals_that_cannot_be_counted_are_told() {
    let huge = |bytes: usize| {
        Some(Parsed {
            buffer: String::new(),
            contents: Contents {
                size: BufferSize { records: 1, bytes },
                hash_input: Vec::new(),
            },
        })
    };
    let mut worker = worker(0);
    worker.enqueue(huge(usize::MAX), at(1));
    worker.enqueue(huge(1), at(1));
    assert!(worker.can_flush(1));
    assert!(!worker.can_flush(2));
}

#[test]
fn the_hash_of_long_input() {
    let long = "0123456789abcdef".repeat(100);
    let mut worker = worker(0);
    worker.enqueue(parsed(&long), at(1));
    worker.enqueue(parsed("tail"), at(1));
    let extended = worker.flush_queue_at(10, NOW);
    assert_eq!(extended.hash, streamed_hash(&[&long, "tail"]));
    assert_ne!(extended.hash, streamed_hash(&[&long]));
}

#[test]
fn replay_of_nothing() {
    let replay = open(0, None).replay_range(Metadata { seq_numbers: 6..6 });
    assert!(replay.is_done());
    assert_eq!(
        replay.finish(),
        Replayed {
            total: BufferSize {
                records: 0,
                bytes: 0
            },
            hash: EMPTY_HASH,
            next_seq_num: 6,
        }
    );
    let backwards = Replay::new(std::ops::Range { start: 9, end: 6 });
    assert!(backwards.is_done());
    assert_eq!(backwards.finish().next_seq_num, 6);
}

#[test]
fn replay_reproduces_a_batch() {
    let bodies = ["a", "bc", "def"];
    let mut worker = worker(4);
    for body in bodies {
        worker.enqueue(parsed(body), at(1));
    }
    let extended = worker.flush_queue_at(10, NOW);

    let reader = open(0, Some(Ok(Metadata { seq_numbers: 4..7 })));
    let (mut replay, replaying) = start_replay(reader, extended.metadata);
    assert_eq!(replay.expected_seq_num(), 4);
    assert_eq!(
        replay.on_batch(Some(batch(4, &["a", "bc"]))),
        admission(&["a", "bc"], None)
    );
    for body in ["a", "bc"] {
        assert!(replay.can_absorb(&Some(contents(body))));
        replay.absorb(&Some(contents(body)));
    }
    assert!(!replay.is_done());
    assert_eq!(replay.expected_seq_num(), 6);
    assert_eq!(
        replay.on_batch(Some(batch(5, &["bc", "def", "more"]))),
        admission(&["def"], None)
    );
    replay.absorb(&Some(contents("def")));
    assert!(replay.is_done());
    let replayed = replay.finish();
    assert_eq!(replayed.total, extended.total);
    assert_eq!(replayed.hash, extended.hash);
    assert_eq!(replayed.next_seq_num, 7);
    let resumed = go_to_work(after_replay(replaying, Ok(replayed)));
    assert_eq!(resumed.next_seq_num(), 7);
}

fn start_replay(reader: S2InputReader, metadata: Metadata) -> (Replay, ReplayingReader) {
    match reader.on_start::<String>(Some(metadata)) {
        Start::Replay { replay, reader } => (replay, reader),
        Start::Work(_) => panic!("the replay is left out"),
    }
}

fn after_replay(reader: ReplayingReader, outcome: Result<Replayed, S2Error>) -> S2InputReader {
    match reader.replayed(outcome) {
        Ok(reader) => reader,
        Err(error) => panic!("{}", error.message()),
    }
}

fn go_to_work(reader: S2InputReader) -> Worker<String> {
    match reader.on_start(None) {
        Start::Work(worker) => worker,
        Start::Replay { .. } => panic!("nothing is to be replayed"),
    }
}

fn requested_url(stream: &mut S2EventStream, seq_num: u64) -> String {
    match stream.next_step(seq_num) {
        StreamStep::Open(request) => request.url,
        other => panic!("{other:?}"),
    }
}

#[test]
fn replays_come_first_and_in_order() {
    let mut reader = open(0, Some(Ok(Metadata { seq_numbers: 90..99 })));
    for (range, bodies) in [(4..6, &["a", "b"][..]), (6..6, &[][..]), (6..7, &["c"][..])] {
        let first = range.start;
        let (mut replay, replaying) = start_replay(
            reader,
            Metadata {
                seq_numbers: range.clone(),
            },
        );
        assert_eq!(replay.expected_seq_num(), first);
        assert_eq!(
            requested_url(&mut replaying.event_stream(), first),
            format!("http://localhost:7070/v1/streams/events/records?seq_num={first}")
        );
        for body in bodies {
            replay.absorb(&Some(contents(body)));
        }
        assert!(replay.is_done());
        let replayed = replay.finish();
        assert_eq!(replayed.hash, streamed_hash(bodies));
        assert_eq!(replayed.next_seq_num, range.end);
        reader = after_replay(replaying, Ok(replayed));
    }
    let mut stream = reader.event_stream();
    let mut worker = go_to_work(reader);
    assert!(!worker.is_extending());
    assert_eq!(worker.on_command(Command::Extend), CommandAction::Continue);
    assert_eq!(
        requested_url(&mut stream, worker.next_seq_num()),
        "http://localhost:7070/v1/streams/events/records?seq_num=7"
    );
}

#[test]
fn without_a_replay_reading_starts_where_the_reader_was_opened() {
    assert_eq!(go_to_work(open(12, None)).next_seq_num(), 12);
    let saved = Metadata { seq_numbers: 3..5 };
    assert_eq!(go_to_work(open(12, Some(Ok(saved)))).next_seq_num(), 5);
}

#[test]
fn a_failed_replay_ends_the_reader() {
    let (replay, replaying) = start_replay(open(0, None), Metadata { seq_numbers: 0..3 });
    let failure = match replay.on_batch(None) {
        Err(error) => error,
        Ok(admission) => panic!("{admission:?}"),
    };
    match replaying.replayed(Err(failure)) {
        Err(error) => assert_eq!(error, S2Error::ReplayEnded),
        Ok(_) => panic!("the reader goes on"),
    }
}

#[test]
fn ranges_tile_the_stream() {
    let mut worker = worker(20);
    let mut ranges = vec![worker.flush_queue_at(5, NOW).metadata.seq_numbers];
    for body in ["a", "b", "c"] {
        worker.enqueue(parsed(body), at(1));
    }
    ranges.push(worker.flush_queue_at(2, NOW).metadata.seq_numbers);
    worker.enqueue(parsed("d"), at(2));
    ranges.push(worker.flush_queue_at(2, NOW).metadata.seq_numbers);
    ranges.push(worker.flush_queue_at(2, NOW).metadata.seq_numbers);
    assert_eq!(ranges, vec![20..20, 20..22, 22..24, 24..24]);
}

#[test]
fn the_clock_gives_the_watermark_of_an_empty_batch() {
    let mut worker = worker(0);
    worker.enqueue(parsed("a"), at(7));
    assert_eq!(worker.flush_queue(1).watermark, at(7));
    assert!(worker.flush_queue(1).watermark.secs > 1_600_000_000);
}

#[test]
fn every_batch_of_a_run_is_replayed() {
    let stream = ["a", "bc", "", "def", "g", "hi"];
    let mut worker = worker(0);
    let mut handed_on: Vec<Extended<String>> = Vec::new();
    for (i, body) in stream.iter().enumerate() {
        worker.enqueue(parsed(body), at(i as i64));
        worker.on_command(if i % 2 == 0 {
            Command::Extend
        } else {
            Command::Pause
        });
        if i == 2 || i == 3 {
            handed_on.push(worker.flush_queue_at(2, NOW));
        }
    }
    handed_on.push(worker.flush_queue_at(9, NOW));
    let mut start = 0;
    for extended in handed_on {
        let range = extended.metadata.seq_numbers.clone();
        assert_eq!(range.start, start);
        let bodies = &stream[range.start as usize..range.end as usize];
        assert_eq!(extended.buffers, bodies);
        let mut replay = Replay::new(range.clone());
        let admission = replay.on_batch(Some(batch(0, &stream))).unwrap();
        assert_eq!(admission.failure, None);
        assert_eq!(admission.bodies, bodies);
        for body in &admission.bodies {
            replay.absorb(&Some(contents(body)));
        }
        assert!(replay.is_done());
        let replayed = replay.finish();
        assert_eq!(replayed.total, extended.total);
        assert_eq!(replayed.hash, extended.hash);
        start = range.end;
    }
    assert_eq!(start, 6);
}

#[test]
fn a_replay_does_not_depend_on_batches() {
    let bodies = ["a", "", "bc", "def"];
    let mut worker = worker(4);
    for body in bodies {
        worker.enqueue(parsed(body), at(1));
    }
    let extended = worker.flush_queue_at(4, NOW);
    for batches in [
        vec![batch(4, &bodies)],
        vec![batch(2, &["x", "y", "a"]), batch(5, &["", "bc", "def", "z"])],
        vec![batch(4, &["a", ""]), batch(4, &["a", "", "bc"]), batch(7, &["def"])],
    ] {
        let mut replay = Replay::new(4..8);
        for batch in batches {
            let admission = replay.on_batch(Some(batch)).unwrap();
            assert_eq!(admission.failure, None);
            for body in &admission.bodies {
                replay.absorb(&Some(contents(body)));
            }
        }
        assert!(replay.is_done());
        let replayed = replay.finish();
        assert_eq!(replayed.total, extended.total);
        assert_eq!(replayed.hash, extended.hash);
        assert_eq!(replayed.next_seq_num, 8);
    }
}

#[test]
fn replay_counts_records_without_data() {
    let mut replay = Replay::new(0..2);
    replay.absorb(&None);
    replay.absorb(&Some(contents("x")));
    let replayed = replay.finish();
    assert_eq!(
        replayed.total,
        BufferSize {
            records: 1,
            bytes: 1
        }
    );
    assert_eq!(replayed.hash, streamed_hash(&["x"]));
}

#[test]
fn replay_fails_at_the_end_of_the_stream() {
    let replay = Replay::new(0..2);
    assert_eq!(replay.on_batch(None), Err(S2Error::ReplayEnded));
}

#[test]
fn replay_fails_at_a_gap() {
    let replay = Replay::new(0..9);
    let mut with_gap = batch(0, &["a"]);
    with_gap.records.push(S2Record {
        body: "c".to_string(),
        seq_num: Some(2),
    });
    assert_eq!(
        replay.on_batch(Some(with_gap)),
        admission(
            &["a"],
            Some(S2Error::ReplayGap {
                expected: 1,
                received: 2
            })
        )
    );
}

#[test]
fn replay_fails_without_progress() {
    let replay = Replay::new(5..9);
    assert_eq!(
        replay.on_batch(Some(batch(0, &["a", "b"]))),
        admission(&[], Some(S2Error::ReplayStalled { seq_num: 5 }))
    );
    assert_eq!(
        replay.on_batch(Some(batch(5, &[]))),
        admission(&[], Some(S2Error::ReplayStalled { seq_num: 5 }))
    );
}

#[test]
fn replay_tells_totals_that_cannot_be_counted() {
    let mut replay = Replay::new(0..9);
    replay.absorb(&Some(Contents {
        size: BufferSize {
            records: usize::MAX,
            bytes: 0,
        },
        hash_input: Vec::new(),
    }));
    assert!(replay.can_absorb(&None));
    assert!(!replay.can_absorb(&Some(contents("x"))));
}

fn decode(payload: &[u8]) -> Result<S2ReadBatch, String> {
    let value: serde_json::Value =
        serde_json::from_slice(payload).map_err(|error| error.to_string())?;
    let seq_num = |value: &serde_json::Value| value.get("seq_num").and_then(|n| n.as_u64());
    Ok(S2ReadBatch {
        start: value
            .get("start")
            .and_then(seq_num)
            .map(|seq_num| S2Cursor { seq_num }),
        records: value["records"]
            .as_array()
            .ok_or("no records")?
            .iter()
            .map(|record| S2Record {
                body: record["body"].as_str().unwrap().to_string(),
                seq_num: seq_num(record),
            })
            .collect(),
    })
}

/// The body of the response to a request for `url`.
fn serve(url: &str) -> &'static str {
    if url.ends_with("/v1/streams/events/records?seq_num=0") {
        "data: {\"start\":{\"seq_num\":0},\"records\":[{\"seq_num\":0,\"body\":\"{\\\"s\\\":\\\"foo\\\",\\\"b\\\":true,\\\"i\\\":10}\"},{\"seq_num\":1,\"body\":\"{\\\"s\\\":\\\"bar\\\",\\\"b\\\":false,\\\"i\\\":-10}\"}]}\n\n"
    } else {
        ""
    }
}

/// One read: the next batch, or `None` at the end of the response.
fn next_batch(
    stream: &mut S2EventStream,
    response: &mut Option<&'static str>,
    seq_num: u64,
) -> Result<Option<S2ReadBatch>, S2Error> {
    loop {
        match stream.next_step(seq_num) {
            StreamStep::Decode(payload) => {
                let outcome = decode(&payload);
                return S2EventStream::decoded(payload, outcome).map(Some);
            }
            StreamStep::Open(request) => {
                stream.opened(Ok(200))?;
                *response = Some(serve(&request.url));
            }
            StreamStep::Read => {
                let body = response.replace("").unwrap();
                let item = if body.is_empty() {
                    None
                } else {
                    Some(Ok(body.as_bytes().to_vec()))
                };
                if stream.received(item)? == Received::End {
                    *response = None;
                    return Ok(None);
                }
            }
        }
    }
}

#[test]
fn test_s2_basic_input_consumption() {
    let reader = open(0, None);
    let mut stream = reader.event_stream();
    let mut worker: Worker<serde_json::Value> = reader.into_worker();
    let mut response = None;
    let mut flushed: Vec<serde_json::Value> = Vec::new();

    assert_eq!(worker.on_command(Command::Extend), CommandAction::Continue);
    for _ in 0..20 {
        let outcome = next_batch(&mut stream, &mut response, worker.next_seq_num());
        if let ReadAction::Ingest(admission) = worker.on_read(outcome) {
            for body in admission.bodies {
                let value: serde_json::Value = serde_json::from_str(&body).unwrap();
                let parsed = Parsed {
                    buffer: value,
                    contents: contents(&body),
                };
                worker.enqueue(Some(parsed), admission.timestamp);
            }
            assert_eq!(admission.failure, None);
        }
        assert_eq!(worker.on_command(Command::Queue), CommandAction::Flush);
        flushed.extend(worker.flush_queue(1).buffers);
    }

    assert_eq!(flushed.len(), 2);
    assert_eq!(flushed[0]["s"], "foo");
    assert_eq!(flushed[1]["s"], "bar");
    assert_eq!(worker.next_seq_num(), 2);
    assert_eq!(worker.on_command(Command::Disconnect), CommandAction::Stop);
}
