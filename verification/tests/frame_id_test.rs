use interchangedb::FrameId;

#[test]
fn test_frame_id_new() {
    let fid = FrameId::new(10);
    assert_eq!(fid.0, 10);
}

#[test]
fn test_frame_id_equality() {
    assert_eq!(FrameId::new(5), FrameId::new(5));
    assert_ne!(FrameId::new(5), FrameId::new(6));
}

#[test]
fn test_frame_id_display() {
    assert_eq!(FrameId::new(42).display_string(), "Frame(42)");
}

#[test]
fn test_frame_id() {
    let fid = FrameId::new(10);
    assert_eq!(fid.0, 10);

    // Test equality
    assert_eq!(FrameId::new(5), FrameId::new(5));
    assert_ne!(FrameId::new(5), FrameId::new(6));
}
