use spark_cli::decoder::StreamDecoder;

#[test]
fn test_stream_split_mid_line() {
    let mut d = StreamDecoder::new();
    let first = d.feed(b"data: {\"choices\":[{\"delta\":");
    assert_eq!(first.len(), 0);
    let second = d.feed(b"{\"content\":\"ok\"}}]}\n");
    assert_eq!(second, vec!["ok".to_string()]);
}

#[test]
fn test_stream_single_delta_line() {
    let mut d = StreamDecoder::new();
    let out = d.feed(b"data: {\"choices\":[{\"delta\":{\"content\":\"hello\"}}]}\n");
    assert_eq!(out, vec!["hello".to_string()]);
}

#[test]
fn test_stream_message_shape_fallback() {
    let mut d = StreamDecoder::new();
    let out = d.feed(b"data: {\"choices\":[{\"message\":{\"content\":\"whole\"}}]}\n");
    assert_eq!(out, vec!["whole".to_string()]);
}

#[test]
fn test_stream_ignores_invalid_lines() {
    let mut d = StreamDecoder::new();
    assert_eq!(d.feed(b"data: {not json}\n").len(), 0);
    assert_eq!(d.feed(b"event: keepalive\n").len(), 0);
    assert_eq!(d.feed(b"\n   \n").len(), 0);
    assert_eq!(d.feed(b"data: {\"choices\":[]}\n").len(), 0);
}

#[test]
fn test_stream_empty_delta_not_emitted() {
    let mut d = StreamDecoder::new();
    assert_eq!(d.feed(b"data: {\"choices\":[{\"delta\":{\"content\":\"\"}}]}\n").len(), 0);
}

#[test]
fn test_stream_no_space_prefix_variant() {
    let mut d = StreamDecoder::new();
    let out = d.feed(b"data:{\"choices\":[{\"delta\":{\"content\":\"x\"}}]}\n");
    assert_eq!(out, vec!["x".to_string()]);
}

#[test]
fn test_stream_done_defers_buffered_lines() {
    // The sentinel stops the current pass; what is already buffered after it
    // is only processed when more bytes arrive.
    let mut d = StreamDecoder::new();
    let out = d.feed(
        b"data: [DONE]\ndata: {\"choices\":[{\"delta\":{\"content\":\"late\"}}]}\n",
    );
    assert_eq!(out.len(), 0);
    let next = d.feed(b"");
    assert_eq!(next, vec!["late".to_string()]);
}

#[test]
fn test_stream_many_events_one_chunk() {
    let mut d = StreamDecoder::new();
    let out = d.feed(
        b"data: {\"choices\":[{\"delta\":{\"content\":\"a\"}}]}\ndata: {\"choices\":[{\"delta\":{\"content\":\"b\"}}]}\n",
    );
    assert_eq!(out, vec!["a".to_string(), "b".to_string()]);
}
