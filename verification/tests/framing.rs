use transcriber::framing::frame_to_frames;
use transcriber::framing::make_frames;
use transcriber::framing::num_frames;

#[test]
fn stft_frame_geometry() {
    // eight samples, frame size four, hop two: exactly three full frames
    let input: Vec<f32> = vec![1.0, 2.0, 3.0, 4.0, 5.0, 6.0, 7.0, 8.0];
    let frames = make_frames(&input, 4, 2);
    assert_eq!(frames.len(), 3);
    for frame in &frames {
        assert_eq!(frame.len(), 4);
    }
    assert_eq!(frames[0], vec![1.0, 2.0, 3.0, 4.0]);
    assert_eq!(frames[1], vec![3.0, 4.0, 5.0, 6.0]);
    assert_eq!(frames[2], vec![5.0, 6.0, 7.0, 8.0]);
}

#[test]
fn short_input_yields_no_frames() {
    let input: Vec<i64> = vec![1, 2, 3];
    let frames = make_frames(&input, 4, 2);
    assert!(frames.is_empty());
    let empty: Vec<i64> = Vec::new();
    assert!(make_frames(&empty, 4, 2).is_empty());
}

#[test]
fn frame_counts() {
    assert_eq!(num_frames(8, 4, 2), 3);
    assert_eq!(num_frames(9, 4, 2), 3);
    assert_eq!(num_frames(4, 4, 2), 1);
    assert_eq!(num_frames(3, 4, 2), 0);
    assert_eq!(num_frames(0, 4, 2), 0);
    assert_eq!(num_frames(10, 2, 3), 3);
}

#[test]
fn frame_index_rescaling() {
    // mapping between frame grids keeps the relative position
    assert_eq!(frame_to_frames(10, 100, 3), 30);
    assert_eq!(frame_to_frames(100, 10, 37), 3);
    assert_eq!(frame_to_frames(7, 7, 4), 4);
    assert_eq!(frame_to_frames(5, 0, 4), 0);
}
