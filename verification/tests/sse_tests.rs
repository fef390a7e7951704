use llm_client::sse::SseDecoder;
use llm_client::stream::StreamSession;
use llm_client::errors::ClientError;

fn feed_all(dec: &mut SseDecoder, bytes: &[u8]) -> Vec<Vec<u8>> {
    dec.feed(bytes)
}

#[test]
fn one_event_then_sentinel() {
    // Exactly one emitted chunk followed by termination, with no error.
    let bytes = b"data: {\"id\":\"1\",\"choices\":[]}\n\ndata: [DONE]\n\n";
    let mut session = StreamSession::new();
    let out = session.feed(bytes).expect("stream must decode cleanly");
    assert_eq!(out.len(), 1);
    assert_eq!(out[0], b"{\"id\":\"1\",\"choices\":[]}".to_vec());
    assert!(session.is_done());
}

#[test]
fn fragmentation_independence_all_split_points() {
    // Splitting the same byte stream at every possible offset must produce
    // the identical ordered payload sequence.
    let bytes: &[u8] = b"data: {\"id\":\"a\"}\n\ndata: {\"id\":\"b\"}\n\ndata: [DONE]\n\n";
    let mut reference = SseDecoder::new();
    let expected = feed_all(&mut reference, bytes);
    let expected_done = reference.is_done();
    assert_eq!(expected.len(), 2);
    for split in 0..=bytes.len() {
        let mut dec = SseDecoder::new();
        let mut got = dec.feed(&bytes[..split]);
        got.extend(dec.feed(&bytes[split..]));
        assert_eq!(got, expected, "split at {split} changed the output");
        assert_eq!(dec.is_done(), expected_done);
    }
}

#[test]
fn fragmentation_independence_byte_at_a_time() {
    let bytes: &[u8] = b"data: {\"id\":\"a\"}\ndata: {\"id\":\"b\"}\ndata: [DONE]\n";
    let mut whole = SseDecoder::new();
    let expected = whole.feed(bytes);
    let mut dec = SseDecoder::new();
    let mut got: Vec<Vec<u8>> = Vec::new();
    for b in bytes {
        got.extend(dec.feed(std::slice::from_ref(b)));
    }
    assert_eq!(got, expected);
    assert!(dec.is_done());
}

#[test]
fn carry_over_across_reads() {
    // A record split in the middle of its prefix and of its payload is
    // reassembled; nothing is emitted before the newline arrives.
    let mut dec = SseDecoder::new();
    assert_eq!(dec.feed(b"da").len(), 0);
    assert_eq!(dec.feed(b"ta: {\"x\"").len(), 0);
    let out = dec.feed(b":1}\n");
    assert_eq!(out, vec![b"{\"x\":1}".to_vec()]);
}

#[test]
fn non_data_lines_are_discarded() {
    let mut dec = SseDecoder::new();
    let out = dec.feed(b"event: ping\n: comment\n\ndata: {\"k\":2}\n");
    assert_eq!(out, vec![b"{\"k\":2}".to_vec()]);
    assert!(!dec.is_done());
}

#[test]
fn nothing_after_sentinel() {
    let mut dec = SseDecoder::new();
    let out = dec.feed(b"data: [DONE]\ndata: {\"late\":true}\n");
    assert_eq!(out.len(), 0);
    assert!(dec.is_done());
}

#[test]
fn sentinel_needs_exact_payload() {
    // A payload that merely contains the sentinel text is an ordinary event.
    let mut dec = SseDecoder::new();
    let out = dec.feed(b"data: {\"note\":\"[DONE]\"}\n");
    assert_eq!(out.len(), 1);
    assert!(!dec.is_done());
}

#[test]
fn invalid_json_payload_aborts_with_decode_error() {
    // The decode policy: a payload that is not valid JSON surfaces a
    // DecodeError and stops the stream.
    let mut session = StreamSession::new();
    let r = session.feed(b"data: {not valid json}\n\n");
    match r {
        Err(ClientError::DecodeError { .. }) => {}
        other => panic!("expected a decode error, got {other:?}"),
    }
}

#[test]
fn valid_events_pass_before_closing() {
    let mut session = StreamSession::new();
    let out = session.feed(b"data: {\"id\":\"1\"}\ndata: {\"id\":\"2\"}\n").unwrap();
    assert_eq!(out.len(), 2);
    assert_eq!(out[0], b"{\"id\":\"1\"}".to_vec());
    assert_eq!(out[1], b"{\"id\":\"2\"}".to_vec());
    assert!(!session.is_done());
}

#[test]
fn early_cancellation_releases_exactly_once() {
    // Stopping after the first event must release the connection exactly
    // once, however often the session is closed afterwards.
    let mut session = StreamSession::new();
    let out = session.feed(b"data: {\"id\":\"1\"}\n").unwrap();
    assert_eq!(out.len(), 1);
    let mut release_count: u32 = 0;
    for _ in 0..3 {
        if session.close() {
            // the caller's release hook would run here
            release_count += 1;
        }
    }
    assert_eq!(release_count, 1);
    assert!(session.is_closed());
}
