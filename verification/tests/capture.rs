use hyprpanopticon::capture::{
    finish_frame, force_opaque, has_undefined_alpha, next_step, texture_layout, BufferInfo,
    CaptureError, CaptureHandle, CapturePhase, CaptureStep, FrameEvent, FrameState, ShmFormat,
    TextureLayout,
};

fn info(format: ShmFormat) -> BufferInfo {
    BufferInfo { format, width: 2, height: 1, stride: 8 }
}

#[test]
fn requests_reach_the_worker() {
    let (tx, rx) = std::sync::mpsc::channel::<u64>();
    let handle = CaptureHandle::new(tx);
    handle.request(0x5693171ffe00);
    handle.clone().request(7);
    assert_eq!(rx.recv().unwrap(), 0x5693171ffe00);
    assert_eq!(rx.recv().unwrap(), 7);
}

#[test]
fn requests_after_the_worker_left_are_dropped() {
    let (tx, rx) = std::sync::mpsc::channel::<u64>();
    drop(rx);
    CaptureHandle::new(tx).request(1);
}

#[test]
fn texture_layouts() {
    assert_eq!(texture_layout(ShmFormat::Argb8888), Some(TextureLayout::B8g8r8a8Premultiplied));
    assert_eq!(texture_layout(ShmFormat::Xrgb8888), Some(TextureLayout::B8g8r8a8Premultiplied));
    assert_eq!(texture_layout(ShmFormat::Abgr8888), Some(TextureLayout::R8g8b8a8Premultiplied));
    assert_eq!(texture_layout(ShmFormat::Xbgr8888), Some(TextureLayout::R8g8b8a8Premultiplied));
    assert_eq!(texture_layout(ShmFormat::Other(0x34325258)), None);
    assert!(has_undefined_alpha(ShmFormat::Xrgb8888));
    assert!(!has_undefined_alpha(ShmFormat::Argb8888));
}

#[test]
fn buffer_size() {
    let b = BufferInfo { format: ShmFormat::Argb8888, width: 1920, height: 1080, stride: 7680 };
    assert_eq!(b.byte_len(), 7680 * 1080);
    let big = BufferInfo { format: ShmFormat::Argb8888, width: 0, height: u32::MAX, stride: u32::MAX };
    assert_eq!(big.byte_len(), u32::MAX as u64 * u32::MAX as u64);
}

#[test]
fn successful_capture_steps() {
    let mut s = FrameState::new();
    assert_eq!(next_step(CapturePhase::Negotiating, &s), CaptureStep::Dispatch);
    s.handle(FrameEvent::Buffer(info(ShmFormat::Xrgb8888)));
    s.handle(FrameEvent::Flags { y_invert: true });
    s.handle(FrameEvent::Other);
    assert_eq!(next_step(CapturePhase::Negotiating, &s), CaptureStep::Dispatch);
    s.handle(FrameEvent::BufferDone);
    assert_eq!(
        next_step(CapturePhase::Negotiating, &s),
        CaptureStep::StartCopy(info(ShmFormat::Xrgb8888))
    );
    assert_eq!(next_step(CapturePhase::Copying, &s), CaptureStep::Dispatch);
    s.handle(FrameEvent::Ready);
    assert_eq!(next_step(CapturePhase::Copying, &s), CaptureStep::Finish);
    let frame = finish_frame(info(ShmFormat::Xrgb8888), &s, vec![1, 2, 3, 4, 5, 6, 7, 8]);
    assert_eq!(frame.bytes, vec![1, 2, 3, 0xFF, 5, 6, 7, 0xFF]);
    assert!(frame.y_invert);
    assert_eq!((frame.width, frame.height, frame.stride), (2, 1, 8));
    assert_eq!(frame.format, ShmFormat::Xrgb8888);
}

#[test]
fn last_buffer_announcement_wins() {
    let mut s = FrameState::new();
    s.handle(FrameEvent::Buffer(info(ShmFormat::Other(1))));
    s.handle(FrameEvent::Buffer(info(ShmFormat::Abgr8888)));
    s.handle(FrameEvent::BufferDone);
    assert_eq!(
        next_step(CapturePhase::Negotiating, &s),
        CaptureStep::StartCopy(info(ShmFormat::Abgr8888))
    );
}

#[test]
fn failures_abort() {
    let mut s = FrameState::new();
    s.handle(FrameEvent::Failed);
    assert_eq!(
        next_step(CapturePhase::Negotiating, &s),
        CaptureStep::Abort(CaptureError::CaptureFailed)
    );
    s.handle(FrameEvent::BufferDone);
    assert_eq!(
        next_step(CapturePhase::Negotiating, &s),
        CaptureStep::Abort(CaptureError::CaptureFailed)
    );
    assert_eq!(next_step(CapturePhase::Copying, &s), CaptureStep::Abort(CaptureError::CopyFailed));
    s.handle(FrameEvent::Ready);
    assert_eq!(next_step(CapturePhase::Copying, &s), CaptureStep::Finish);

    let mut t = FrameState::new();
    t.handle(FrameEvent::BufferDone);
    assert_eq!(
        next_step(CapturePhase::Negotiating, &t),
        CaptureStep::Abort(CaptureError::NoBufferFormat)
    );
}

#[test]
fn opaque_only_touches_alpha_of_whole_pixels() {
    let mut b = vec![0u8, 1, 2, 3, 4, 5];
    force_opaque(&mut b);
    assert_eq!(b, vec![0, 1, 2, 0xFF, 4, 5]);
    force_opaque(&mut b);
    assert_eq!(b, vec![0, 1, 2, 0xFF, 4, 5]);
    let mut empty: Vec<u8> = vec![];
    force_opaque(&mut empty);
    assert!(empty.is_empty());
    let s = FrameState::new();
    let frame = finish_frame(info(ShmFormat::Argb8888), &s, vec![9, 9, 9, 9]);
    assert_eq!(frame.bytes, vec![9, 9, 9, 9]);
    assert!(!frame.y_invert);
}
