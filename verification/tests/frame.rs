use sweep::frame::{decode_frames, frame_header, frame_size, FrameSize};

#[test]
fn frame_size_lines() {
    assert_eq!(frame_size(""), FrameSize::End);
    assert_eq!(frame_size("12\n"), FrameSize::Size(12));
    assert_eq!(frame_size("  7 \r\n"), FrameSize::Size(7));
    assert_eq!(frame_size("+3\n"), FrameSize::Size(3));
    assert_eq!(frame_size("\n"), FrameSize::Invalid);
    assert_eq!(frame_size("-1\n"), FrameSize::Invalid);
    assert_eq!(frame_size("1 2\n"), FrameSize::Invalid);
    assert_eq!(frame_size("99999999999999999999\n"), FrameSize::Invalid);
}

#[test]
fn frame_header_reads_back() {
    assert_eq!(frame_header(0), "0\n");
    assert_eq!(frame_header(1234), "1234\n");
    for len in [0usize, 9, 10, 65536, usize::MAX] {
        assert_eq!(frame_size(&frame_header(len)), FrameSize::Size(len));
    }
}

#[test]
fn frames_stream_roundtrip() {
    let messages: Vec<Vec<u8>> = vec![
        br#"{"jsonrpc":"2.0","method":"a"}"#.to_vec(),
        Vec::new(),
        "{\"method\":\"é\"}".as_bytes().to_vec(),
    ];
    let mut stream = Vec::new();
    for message in &messages {
        stream.extend_from_slice(frame_header(message.len()).as_bytes());
        stream.extend_from_slice(message);
    }
    assert_eq!(decode_frames(&stream), Some(messages));
    assert_eq!(decode_frames(b""), Some(Vec::new()));
    // a length with whitespace around it
    assert_eq!(decode_frames(b" 2 \r\nab"), Some(vec![b"ab".to_vec()]));
    // a length line is read as UTF-8 text: a no-break space around it is whitespace
    let mut spaced = "3\u{a0}\n".as_bytes().to_vec();
    spaced.extend_from_slice(b"xyz");
    assert_eq!(decode_frames(&spaced), Some(vec![b"xyz".to_vec()]));
    // a line that is not UTF-8 is not a length
    assert_eq!(decode_frames(b"3\xff\nxyz"), None);
    // more bytes announced than follow
    assert_eq!(decode_frames(b"5\nabc"), None);
    // a line that is not a length
    assert_eq!(decode_frames(b"x\nabc"), None);
    assert_eq!(decode_frames(b"\n"), None);
}
