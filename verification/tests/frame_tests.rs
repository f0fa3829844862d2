//! The frame reader: boundary detection, chunking, buffer growth and
//! pipelining.

use yggdrasilctl::frame::{FrameReader, FrameStep};

fn expect_frame(step: FrameStep) -> Vec<u8> {
    match step {
        FrameStep::Ready(f) => f,
        other => panic!("expected a complete frame, got {:?}", other),
    }
}

fn is_incomplete(step: &FrameStep) -> bool {
    matches!(step, FrameStep::Incomplete)
}

#[test]
fn read_response() {
    // one complete object, no delimiter needed
    let mut r = FrameReader::new();
    r.feed(b"{ ... }");
    assert_eq!(expect_frame(r.next_frame()), b"{ ... }");

    // a trailing newline is beyond the object's end and stays pending
    let mut r = FrameReader::new();
    r.feed(b"{ ... }\n");
    assert_eq!(expect_frame(r.next_frame()), b"{ ... }");

    // pretty-printed object
    let mut r = FrameReader::new();
    r.feed(b"{\n ... \n}\n");
    assert_eq!(expect_frame(r.next_frame()), b"{\n ... \n}");

    // delivered across three reads
    let mut r = FrameReader::new();
    r.feed(b"{");
    assert!(is_incomplete(&r.next_frame()));
    r.feed(b" ... ");
    assert!(is_incomplete(&r.next_frame()));
    r.feed(b"}\n");
    assert_eq!(expect_frame(r.next_frame()), b"{ ... }");

    // a reply much larger than any initial buffer round-trips intact
    let line: String = std::iter::repeat('a').take(100).collect();
    let piece = format!("\"{line}\",\n");
    let lines: String = std::iter::repeat(piece).take(1000).collect();
    let long = format!("{{\n{lines}\n}}\n");
    assert!(long.len() > 8192 << 2);
    let mut r = FrameReader::new();
    r.feed(long.as_bytes());
    let frame = expect_frame(r.next_frame());
    assert_eq!(frame, &long.as_bytes()[..long.len() - 1]);
}

#[test]
fn frame_boundary_any_chunking() {
    // whatever the chunk sizes, exactly the value's bytes come out
    let text = b"  {\"a\": [1, 2, {\"b\": \"}]\\\"\"}], \"c\": null} tail";
    let frame_end = text.len() - 5;
    for cut1 in 0..text.len() {
        for cut2 in cut1..text.len() {
            let mut r = FrameReader::new();
            r.feed(&text[..cut1]);
            let mut got: Option<Vec<u8>> = None;
            if let FrameStep::Ready(f) = r.next_frame() {
                got = Some(f);
            }
            r.feed(&text[cut1..cut2]);
            if got.is_none() {
                if let FrameStep::Ready(f) = r.next_frame() {
                    got = Some(f);
                }
            }
            r.feed(&text[cut2..]);
            if got.is_none() {
                if let FrameStep::Ready(f) = r.next_frame() {
                    got = Some(f);
                }
            }
            assert_eq!(got.expect("frame must complete"), &text[..frame_end]);
        }
    }
}

#[test]
fn buffer_growth_over_initial_capacity() {
    // a single reply bigger than 32 KiB, delivered in small pieces
    let mut body = String::from("{\"data\":\"");
    while body.len() < 40_000 {
        body.push('x');
    }
    body.push_str("\"}");
    let bytes = body.as_bytes();
    let mut r = FrameReader::new();
    let mut i = 0;
    while i < bytes.len() {
        let j = (i + 777).min(bytes.len());
        r.feed(&bytes[i..j]);
        i = j;
    }
    assert_eq!(expect_frame(r.next_frame()), bytes);
}

#[test]
fn pipelining_two_replies_one_read() {
    let first = b"{\"status\":\"success\",\"response\":{\"n\":1}}";
    let second = b"{\"status\":\"success\",\"response\":{\"n\":2}}";
    let mut both = Vec::new();
    both.extend_from_slice(first);
    both.extend_from_slice(second);
    let mut r = FrameReader::new();
    r.feed(&both);
    assert_eq!(expect_frame(r.next_frame()), first);
    // the second frame comes without touching the transport again
    assert_eq!(expect_frame(r.next_frame()), second);
    assert!(is_incomplete(&r.next_frame()));
}

#[test]
fn invalid_start_is_rejected() {
    let mut r = FrameReader::new();
    r.feed(b"   x{}");
    assert!(matches!(r.next_frame(), FrameStep::Invalid));
}

#[test]
fn brackets_inside_strings_do_not_count() {
    let mut r = FrameReader::new();
    r.feed(b"{\"a\":\"}{\\\"\"}rest");
    assert_eq!(expect_frame(r.next_frame()), b"{\"a\":\"}{\\\"\"}");
}
