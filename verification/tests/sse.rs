use s2_input::sse::{find_event_boundary, parse_sse_event_payload, SseParser};

fn drain(parser: &mut SseParser) -> Vec<Vec<u8>> {
    let mut payloads = Vec::new();
    while let Some(payload) = parser.next_event_payload() {
        payloads.push(payload);
    }
    payloads
}

fn payloads_in_chunks(stream: &[u8], size: usize) -> Vec<Vec<u8>> {
    let mut parser = SseParser::new();
    let mut payloads = Vec::new();
    for chunk in stream.chunks(size) {
        parser.push(chunk);
        payloads.extend(drain(&mut parser));
    }
    payloads
}

#[test]
fn boundary_of_line_feeds() {
    assert_eq!(find_event_boundary(b"data: a\n\nrest"), Some((7, 2)));
}

#[test]
fn boundary_of_carriage_returns() {
    assert_eq!(find_event_boundary(b"data: a\r\n\r\nrest"), Some((7, 4)));
}

#[test]
fn boundary_is_the_first_one() {
    assert_eq!(find_event_boundary(b"a\r\n\r\nb\n\n"), Some((1, 4)));
    assert_eq!(find_event_boundary(b"a\n\nb\r\n\r\n"), Some((1, 2)));
}

#[test]
fn boundary_is_missing() {
    assert_eq!(find_event_boundary(b""), None);
    assert_eq!(find_event_boundary(b"\n"), None);
    assert_eq!(find_event_boundary(b"data: a\n"), None);
    assert_eq!(find_event_boundary(b"data: a\r\n\r"), None);
    assert_eq!(find_event_boundary(b"a\n\r\nb"), None);
}

#[test]
fn payload_of_one_field() {
    assert_eq!(parse_sse_event_payload(b"data: hello"), b"hello".to_vec());
}

#[test]
fn payload_drops_one_space_only() {
    assert_eq!(parse_sse_event_payload(b"data:hello"), b"hello".to_vec());
    assert_eq!(parse_sse_event_payload(b"data:  hello"), b" hello".to_vec());
}

#[test]
fn payload_of_several_fields() {
    assert_eq!(
        parse_sse_event_payload(b"data: a\r\ndata: b\r\ndata: c"),
        b"a\nb\nc".to_vec()
    );
}

#[test]
fn payload_ignores_other_lines() {
    assert_eq!(
        parse_sse_event_payload(b"event: batch\nid: 7\n: note\ndata: a\ndat: b\n data: c"),
        b"a".to_vec()
    );
}

#[test]
fn payload_with_empty_fields() {
    assert_eq!(parse_sse_event_payload(b""), Vec::<u8>::new());
    assert_eq!(parse_sse_event_payload(b"data:"), Vec::<u8>::new());
    assert_eq!(parse_sse_event_payload(b"data: "), Vec::<u8>::new());
    assert_eq!(parse_sse_event_payload(b"data:\ndata: x"), b"x".to_vec());
    assert_eq!(parse_sse_event_payload(b"data: x\ndata:"), b"x\n".to_vec());
}

#[test]
fn payload_keeps_inner_carriage_returns() {
    assert_eq!(parse_sse_event_payload(b"data: a\rb\r\r"), b"a\rb\r".to_vec());
}

#[test]
fn parser_waits_for_the_end_of_an_event() {
    let mut parser = SseParser::new();
    parser.push(b"data: he");
    assert_eq!(parser.next_event_payload(), None);
    parser.push(b"llo\n");
    assert_eq!(parser.next_event_payload(), None);
    parser.push(b"\ndata: next");
    assert_eq!(parser.next_event_payload(), Some(b"hello".to_vec()));
    assert_eq!(parser.next_event_payload(), None);
    parser.push(b"\n\n");
    assert_eq!(parser.next_event_payload(), Some(b"next".to_vec()));
}

#[test]
fn parser_drops_events_without_payload() {
    let mut parser = SseParser::new();
    parser.push(b": ping\n\nevent: ping\n\ndata: a\n\n: ping\n\n");
    assert_eq!(drain(&mut parser), vec![b"a".to_vec()]);
    parser.push(b"data: b\n\n");
    assert_eq!(drain(&mut parser), vec![b"b".to_vec()]);
}

#[test]
fn chunking_makes_no_difference() {
    let stream = b"data: one\n\n: ping\n\ndata: two\r\ndata: three\r\n\r\ndata: four\n\ndata: fi";
    let whole = payloads_in_chunks(stream, stream.len());
    assert_eq!(
        whole,
        vec![b"one".to_vec(), b"two\nthree".to_vec(), b"four".to_vec()]
    );
    for size in 1..stream.len() {
        assert_eq!(payloads_in_chunks(stream, size), whole);
    }
}

#[test]
fn framed_payloads_are_read_back() {
    let mut parser = SseParser::new();
    parser.push(b"data: {\"a\":1}\n\ndata: {\"b\":2}\r\n\r\ndata: x\r\ndata: \r\ndata: y\r\n\r\n");
    assert_eq!(
        drain(&mut parser),
        vec![b"{\"a\":1}".to_vec(), b"{\"b\":2}".to_vec(), b"x\n\ny".to_vec()]
    );
    parser.push(b"data: \ndata: lost\n\n");
    assert_eq!(drain(&mut parser), vec![b"lost".to_vec()]);
}

#[test]
fn boundary_stays_where_it_is() {
    let event = b"data: a\r\n\r\n";
    for more in [&b"\n"[..], &b"\r\n\r\n"[..], &b"data: b\n\n"[..]] {
        let mut all = event.to_vec();
        all.extend_from_slice(more);
        assert_eq!(find_event_boundary(&all), find_event_boundary(event));
    }
}
