use koko::stream::{Phase, StreamAction, StreamEvent, StreamSession};
use koko::wav::encode_samples;

fn expected_stream_header() -> Vec<u8> {
    let mut h = Vec::new();
    h.extend_from_slice(b"RIFF");
    h.extend_from_slice(&[0xff, 0xff, 0xff, 0xff]);
    h.extend_from_slice(b"WAVE");
    h.extend_from_slice(b"fmt ");
    h.extend_from_slice(&[16, 0, 0, 0]);
    h.extend_from_slice(&[3, 0]);
    h.extend_from_slice(&[1, 0]);
    h.extend_from_slice(&[0xc0, 0x5d, 0x00, 0x00]);
    h.extend_from_slice(&[0x00, 0x77, 0x01, 0x00]);
    h.extend_from_slice(&[4, 0]);
    h.extend_from_slice(&[32, 0]);
    h.extend_from_slice(b"data");
    h.extend_from_slice(&[0xff, 0xff, 0xff, 0xff]);
    h
}

#[test]
fn header_comes_first_even_without_lines() {
    let (mut s, header) = StreamSession::open();
    assert_eq!(header, expected_stream_header());
    assert_eq!(s.phase, Phase::AwaitingLine);
    assert_eq!(s.step(StreamEvent::EndOfInput), StreamAction::Stop);
    assert_eq!(s.phase, Phase::Closed);
}

#[test]
fn a_line_is_synthesized_then_emitted() {
    let (mut s, _) = StreamSession::open();
    assert_eq!(
        s.step(StreamEvent::Line("  hello there \r".to_string())),
        StreamAction::Synthesize("hello there".to_string())
    );
    assert_eq!(s.phase, Phase::Synthesizing);
    let samples = vec![0.5f32.to_bits(), (-1.0f32).to_bits()];
    let mut bytes = Vec::new();
    bytes.extend_from_slice(&0.5f32.to_le_bytes());
    bytes.extend_from_slice(&(-1.0f32).to_le_bytes());
    assert_eq!(s.step(StreamEvent::Audio(samples)), StreamAction::Emit(bytes));
    assert_eq!(s.phase, Phase::AwaitingLine);
}

#[test]
fn blank_lines_are_skipped() {
    let (mut s, _) = StreamSession::open();
    assert_eq!(s.step(StreamEvent::Line("".to_string())), StreamAction::Skip);
    assert_eq!(s.step(StreamEvent::Line(" \t ".to_string())), StreamAction::Skip);
    assert_eq!(s.phase, Phase::AwaitingLine);
}

#[test]
fn failure_is_reported_and_loop_goes_on() {
    let (mut s, _) = StreamSession::open();
    assert_eq!(
        s.step(StreamEvent::Line("x".to_string())),
        StreamAction::Synthesize("x".to_string())
    );
    assert_eq!(s.step(StreamEvent::Failed), StreamAction::Report);
    assert_eq!(s.phase, Phase::AwaitingLine);
    assert_eq!(
        s.step(StreamEvent::Line("y".to_string())),
        StreamAction::Synthesize("y".to_string())
    );
    assert_eq!(s.step(StreamEvent::Audio(vec![])), StreamAction::Emit(vec![]));
}

#[test]
fn out_of_turn_events_are_rejected() {
    let (mut s, _) = StreamSession::open();
    assert_eq!(s.step(StreamEvent::Audio(vec![1])), StreamAction::Rejected);
    assert_eq!(s.step(StreamEvent::Failed), StreamAction::Rejected);
    assert_eq!(s.phase, Phase::AwaitingLine);
    s.step(StreamEvent::Line("z".to_string()));
    assert_eq!(s.step(StreamEvent::Line("w".to_string())), StreamAction::Rejected);
    assert_eq!(s.step(StreamEvent::EndOfInput), StreamAction::Rejected);
    s.step(StreamEvent::Failed);
    s.step(StreamEvent::EndOfInput);
    assert_eq!(s.step(StreamEvent::Line("v".to_string())), StreamAction::Rejected);
    assert_eq!(s.phase, Phase::Closed);
}

#[test]
fn advance_takes_trimmed_lines() {
    let (mut s, _) = StreamSession::open();
    assert_eq!(s.advance(StreamEvent::Line("".to_string())), StreamAction::Skip);
    assert_eq!(
        s.advance(StreamEvent::Line(" a ".to_string())),
        StreamAction::Synthesize(" a ".to_string())
    );
}

#[test]
fn chunks_follow_line_order() {
    let (mut s, header) = StreamSession::open();
    let mut sink = header.clone();
    for (i, line) in ["one", "", "two"].iter().enumerate() {
        match s.step(StreamEvent::Line(line.to_string())) {
            StreamAction::Synthesize(_) => {
                if let StreamAction::Emit(b) = s.step(StreamEvent::Audio(vec![i as u32])) {
                    sink.extend_from_slice(&b);
                }
            }
            a => assert_eq!(a, StreamAction::Skip),
        }
    }
    assert_eq!(s.step(StreamEvent::EndOfInput), StreamAction::Stop);
    let mut expected = header;
    expected.extend_from_slice(&encode_samples(&vec![0]));
    expected.extend_from_slice(&encode_samples(&vec![2]));
    assert_eq!(sink, expected);
    assert_eq!(&sink[..4], b"RIFF");
}
