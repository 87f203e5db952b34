use ic_websocket_gateway::error::GatewayError;
use ic_websocket_gateway::message::Frame;
use ic_websocket_gateway::reorder::ReorderBuffer;

fn frame(sequence: u64) -> Frame {
    Frame { sequence, payload: vec![sequence as u8; 3] }
}

fn sequences(frames: &[Frame]) -> Vec<u64> {
    frames.iter().map(|f| f.sequence).collect()
}

#[test]
fn frames_in_order_pass_straight_through() {
    let mut buffer = ReorderBuffer::new(4);
    assert_eq!(buffer.last_delivered(), 0);
    assert_eq!(buffer.accept(frame(1)), Ok(vec![frame(1)]));
    assert_eq!(buffer.accept(frame(2)), Ok(vec![frame(2)]));
    assert_eq!(buffer.accept(frame(3)), Ok(vec![frame(3)]));
    assert_eq!(buffer.last_delivered(), 3);
}

#[test]
fn early_frames_wait_for_the_missing_one() {
    let mut buffer = ReorderBuffer::new(4);
    assert_eq!(buffer.accept(frame(3)), Ok(vec![]));
    assert_eq!(buffer.accept(frame(2)), Ok(vec![]));
    assert_eq!(buffer.last_delivered(), 0);
    assert_eq!(buffer.accept(frame(1)), Ok(vec![frame(1), frame(2), frame(3)]));
    assert_eq!(buffer.last_delivered(), 3);
    assert_eq!(buffer.accept(frame(5)), Ok(vec![]));
    assert_eq!(buffer.accept(frame(4)), Ok(vec![frame(4), frame(5)]));
    assert_eq!(buffer.last_delivered(), 5);
}

#[test]
fn a_release_stops_at_the_next_gap() {
    let mut buffer = ReorderBuffer::new(4);
    assert_eq!(buffer.accept(frame(2)), Ok(vec![]));
    assert_eq!(buffer.accept(frame(4)), Ok(vec![]));
    assert_eq!(buffer.accept(frame(1)), Ok(vec![frame(1), frame(2)]));
    assert_eq!(buffer.accept(frame(3)), Ok(vec![frame(3), frame(4)]));
}

#[test]
fn a_frame_beyond_the_window_is_a_gap() {
    let mut buffer = ReorderBuffer::new(2);
    assert_eq!(buffer.accept(frame(3)), Ok(vec![]));
    assert_eq!(buffer.accept(frame(4)), Err(GatewayError::SequenceGap));
    assert_eq!(buffer.last_delivered(), 0);
    assert_eq!(buffer.accept(frame(1)), Ok(vec![frame(1)]));
    assert_eq!(buffer.accept(frame(2)), Ok(vec![frame(2), frame(3)]));
}

#[test]
fn a_window_of_zero_takes_only_the_awaited_frame() {
    let mut buffer = ReorderBuffer::new(0);
    assert_eq!(buffer.accept(frame(2)), Err(GatewayError::SequenceGap));
    assert_eq!(buffer.accept(frame(1)), Ok(vec![frame(1)]));
    assert_eq!(buffer.accept(frame(2)), Ok(vec![frame(2)]));
}

#[test]
fn stale_and_repeated_frames_are_dropped() {
    let mut buffer = ReorderBuffer::new(4);
    assert_eq!(buffer.accept(frame(0)), Ok(vec![]));
    assert_eq!(buffer.accept(frame(1)), Ok(vec![frame(1)]));
    assert_eq!(buffer.accept(frame(1)), Ok(vec![]));
    let first = Frame { sequence: 3, payload: vec![1] };
    let second = Frame { sequence: 3, payload: vec![2] };
    assert_eq!(buffer.accept(first.clone()), Ok(vec![]));
    assert_eq!(buffer.accept(second), Ok(vec![]));
    assert_eq!(buffer.accept(frame(2)), Ok(vec![frame(2), first]));
}

#[test]
fn the_highest_sequence_number_is_delivered_without_overflow() {
    let mut buffer = ReorderBuffer::new(3);
    assert_eq!(buffer.accept(frame(u64::MAX)), Err(GatewayError::SequenceGap));
    assert_eq!(buffer.accept(frame(4)), Ok(vec![]));
    assert_eq!(buffer.accept(frame(5)), Err(GatewayError::SequenceGap));
}

#[test]
fn whatever_the_order_of_arrival_the_output_counts_up() {
    let arrivals: [u64; 12] = [2, 1, 1, 5, 3, 9, 4, 7, 6, 8, 12, 10];
    let mut buffer = ReorderBuffer::new(3);
    let mut out: Vec<Frame> = Vec::new();
    for n in arrivals {
        if let Ok(frames) = buffer.accept(frame(n)) {
            out.extend(frames);
        }
    }
    assert_eq!(sequences(&out), vec![1, 2, 3, 4, 5, 6, 7, 8]);
    assert_eq!(buffer.last_delivered(), 8);
    for f in &out {
        assert_eq!(f.payload, vec![f.sequence as u8; 3]);
    }
}
