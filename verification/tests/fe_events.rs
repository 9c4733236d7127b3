use charge_overview::fe_events::{integrator_level, sse_data, SseBuffer};

#[test]
fn parses_integrator_level() {
    assert_eq!(integrator_level("FB3"), Some(3));
    assert_eq!(integrator_level("FB0"), Some(0));
    assert_eq!(integrator_level("EXT"), None);
    assert_eq!(integrator_level("FB"), None);
}

#[test]
fn extracts_sse_data_payload() {
    assert_eq!(
        sse_data("data: {\"a\":1}\n\n").as_deref(),
        Some("{\"a\":1}")
    );
    assert_eq!(sse_data("data: a\ndata: b\n\n").as_deref(), Some("a\nb"));
    assert_eq!(sse_data(": keep-alive\n\n"), None);
}

#[test]
fn integrator_levels_fit_in_a_byte() {
    assert_eq!(integrator_level("FB255"), Some(255));
    assert_eq!(integrator_level("FB256"), None);
    assert_eq!(integrator_level("FB+4"), Some(4));
    assert_eq!(integrator_level("FB007"), Some(7));
    assert_eq!(integrator_level("FB-1"), None);
    assert_eq!(integrator_level("FB4 "), None);
    assert_eq!(integrator_level("fb4"), None);
    for level in 0..=255u8 {
        assert_eq!(integrator_level(&format!("FB{level}")), Some(level));
    }
}

#[test]
fn payloads_lose_one_space_and_line_ends() {
    assert_eq!(sse_data("data:x\r\nevent: settings\r\ndata:  y\n\n").as_deref(), Some("x\n y"));
    assert_eq!(sse_data("data:\n\n").as_deref(), Some(""));
    assert_eq!(sse_data("").as_deref(), None);
    assert_eq!(sse_data("data: tail\r").as_deref(), Some("tail\r"));
}

#[test]
fn frames_are_cut_at_blank_lines() {
    let mut buffer = SseBuffer::new();
    assert_eq!(buffer.feed(&b"data: a\n".to_vec()), Vec::<String>::new());
    assert_eq!(buffer.feed(&b"\ndata: b\n\nda".to_vec()), vec!["data: a\n\n", "data: b\n\n"]);
    assert_eq!(buffer.feed(&b"ta: c\n\n".to_vec()), vec!["data: c\n\n"]);
}

#[test]
fn frames_do_not_depend_on_the_chunks() {
    let stream = "data: one\n\n\n\ndata: two\ndata: three\n\n: ping\n\nrest";
    let mut whole = SseBuffer::new();
    let all = whole.feed_text(stream);
    assert_eq!(
        all,
        vec!["data: one\n\n", "\n\n", "data: two\ndata: three\n\n", ": ping\n\n"]
    );
    for size in 1..stream.len() {
        let mut buffer = SseBuffer::new();
        let mut got: Vec<String> = Vec::new();
        for chunk in stream.as_bytes().chunks(size) {
            got.extend(buffer.feed(&chunk.to_vec()));
        }
        assert_eq!(got, all, "chunks of {size}");
    }
}

#[test]
fn invalid_bytes_are_replaced() {
    let mut buffer = SseBuffer::new();
    let frames = buffer.feed(&vec![b'd', 0xff, b'\n', b'\n']);
    assert_eq!(frames, vec!["d\u{fffd}\n\n"]);
    let frames = buffer.feed(&"data: µ\n\n".as_bytes().to_vec());
    assert_eq!(frames, vec!["data: µ\n\n"]);
}
