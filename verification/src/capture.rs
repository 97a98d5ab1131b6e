//! Capture plumbing that does not touch the Wayland connection: the request
//! handle of the capture worker, the frame protocol's state and decisions,
//! and the pixel post-processing of a finished frame.

use vstd::prelude::*;
use std::sync::mpsc::Sender;

verus! {

#[verifier::external_type_specification]
#[verifier::external_body]
#[verifier::reject_recursive_types(T)]
pub struct ExSender<T>(Sender<T>);

/// `Sender::clone`: another sending end of the same channel. Nothing is
/// claimed of the result beyond its type.
pub assume_specification<T>[ <Sender<T> as Clone>::clone ](s: &Sender<T>) -> Sender<T>;

/// Hands `addr` to the receiving end of the channel (`Sender::send`). The
/// send fails only when the receiver is gone; that outcome is dropped, as a
/// worker that has exited has nothing left to capture.
#[verifier::external_body]
fn send_address(tx: &Sender<u64>, addr: u64) {
    let _ = tx.send(addr);
}

/// Handle for requesting captures from the capture worker.
#[derive(Clone)]
pub struct CaptureHandle {
    tx: Sender<u64>,
}

impl CaptureHandle {
    /// The sending end of the worker's request channel that requests go to.
    pub closed spec fn sender(&self) -> Sender<u64> {
        self.tx
    }

    /// Wraps the sending end of the worker's request channel.
    pub fn new(tx: Sender<u64>) -> (h: Self)
        ensures
            h.sender() == tx,
    {
        CaptureHandle { tx }
    }

    /// Asks the worker to capture the window with address `addr`. A worker
    /// that has exited ignores the request.
    pub fn request(&self, addr: u64) {
        send_address(&self.tx, addr);
    }
}

/// The shm pixel formats that the overlay tells apart; every other format
/// the compositor may announce is carried by its protocol code.
#[derive(Clone, Copy, Debug, PartialEq, Eq, Structural)]
pub enum ShmFormat {
    Argb8888,
    Xrgb8888,
    Abgr8888,
    Xbgr8888,
    Other(u32),
}

/// Memory layouts of an uploadable texture: byte order and premultiplied alpha.
#[derive(Clone, Copy, Debug, PartialEq, Eq, Structural)]
pub enum TextureLayout {
    B8g8r8a8Premultiplied,
    R8g8b8a8Premultiplied,
}

/// The texture layout that holds pixels of format `f`, if one is supported.
pub open spec fn spec_texture_layout(f: ShmFormat) -> Option<TextureLayout> {
    match f {
        ShmFormat::Argb8888 | ShmFormat::Xrgb8888 => Some(TextureLayout::B8g8r8a8Premultiplied),
        ShmFormat::Abgr8888 | ShmFormat::Xbgr8888 => Some(TextureLayout::R8g8b8a8Premultiplied),
        ShmFormat::Other(_) => None,
    }
}

/// X-formats whose fourth byte per pixel is undefined rather than alpha.
pub open spec fn spec_has_undefined_alpha(f: ShmFormat) -> bool {
    f == ShmFormat::Xrgb8888 || f == ShmFormat::Xbgr8888
}

/// Texture layout for captured pixels of format `f`; `None` for pixel
/// formats the overlay does not support.
pub fn texture_layout(f: ShmFormat) -> (r: Option<TextureLayout>)
    ensures
        r == spec_texture_layout(f),
{
    match f {
        ShmFormat::Argb8888 | ShmFormat::Xrgb8888 => Some(TextureLayout::B8g8r8a8Premultiplied),
        ShmFormat::Abgr8888 | ShmFormat::Xbgr8888 => Some(TextureLayout::R8g8b8a8Premultiplied),
        ShmFormat::Other(_) => None,
    }
}

/// Whether pixels of format `f` carry undefined alpha.
pub fn has_undefined_alpha(f: ShmFormat) -> (r: bool)
    ensures
        r == spec_has_undefined_alpha(f),
{
    match f {
        ShmFormat::Xrgb8888 | ShmFormat::Xbgr8888 => true,
        _ => false,
    }
}

/// The shm buffer the compositor asks for: pixel format and dimensions.
#[derive(Clone, Copy, Debug, PartialEq, Eq, Structural)]
pub struct BufferInfo {
    pub format: ShmFormat,
    pub width: u32,
    pub height: u32,
    pub stride: u32,
}

impl BufferInfo {
    /// Size in bytes of a buffer of `height` rows of `stride` bytes.
    pub fn byte_len(&self) -> (n: u64)
        ensures
            n == self.stride as int * self.height as int,
    {
        proof {
            assert(self.stride as int * self.height as int <= u32::MAX as int * u32::MAX as int)
                by (nonlinear_arith);
        }
        self.stride as u64 * self.height as u64
    }
}

/// One event of a toplevel export frame, as far as the capture cares.
/// Announcements with a format or flag value unknown to the protocol
/// version, and every other event, are `Other`.
#[derive(Clone, Copy, Debug, PartialEq, Eq, Structural)]
pub enum FrameEvent {
    Buffer(BufferInfo),
    Flags { y_invert: bool },
    BufferDone,
    Ready,
    Failed,
    Other,
}

/// What a frame has announced so far.
#[derive(Clone, Copy, Debug, PartialEq, Eq, Structural)]
pub struct FrameState {
    pub buffer_info: Option<BufferInfo>,
    pub y_invert: bool,
    pub buffer_done: bool,
    pub ready: bool,
    pub failed: bool,
}

/// A frame that has announced nothing yet.
pub open spec fn spec_fresh_state() -> FrameState {
    FrameState { buffer_info: None, y_invert: false, buffer_done: false, ready: false, failed: false }
}

/// The state after `ev` arrives in state `s`.
pub open spec fn spec_after(s: FrameState, ev: FrameEvent) -> FrameState {
    match ev {
        FrameEvent::Buffer(info) => FrameState { buffer_info: Some(info), ..s },
        FrameEvent::Flags { y_invert } => FrameState { y_invert, ..s },
        FrameEvent::BufferDone => FrameState { buffer_done: true, ..s },
        FrameEvent::Ready => FrameState { ready: true, ..s },
        FrameEvent::Failed => FrameState { failed: true, ..s },
        FrameEvent::Other => s,
    }
}

/// The state after the events `evs`, in order, starting from `s`.
pub open spec fn spec_run(s: FrameState, evs: Seq<FrameEvent>) -> FrameState
    decreases evs.len(),
{
    if evs.len() == 0 {
        s
    } else {
        spec_after(spec_run(s, evs.drop_last()), evs.last())
    }
}

impl FrameState {
    /// State of a frame that has announced nothing yet.
    pub fn new() -> (s: Self)
        ensures
            s == spec_fresh_state(),
    {
        FrameState { buffer_info: None, y_invert: false, buffer_done: false, ready: false, failed: false }
    }

    /// Records what event `ev` announces.
    pub fn handle(&mut self, ev: FrameEvent)
        ensures
            *final(self) == spec_after(*old(self), ev),
    {
        match ev {
            FrameEvent::Buffer(info) => self.buffer_info = Some(info),
            FrameEvent::Flags { y_invert } => self.y_invert = y_invert,
            FrameEvent::BufferDone => self.buffer_done = true,
            FrameEvent::Ready => self.ready = true,
            FrameEvent::Failed => self.failed = true,
            FrameEvent::Other => {},
        }
    }
}

/// The two waits of a capture: for the buffer announcement, then for the copy.
#[derive(Clone, Copy, Debug, PartialEq, Eq, Structural)]
pub enum CapturePhase {
    Negotiating,
    Copying,
}

/// Why a capture ends without a frame.
#[derive(Clone, Copy, Debug, PartialEq, Eq, Structural)]
pub enum CaptureError {
    /// The compositor failed the frame before announcing its buffer.
    CaptureFailed,
    /// The buffer announcement ended without a usable shm format.
    NoBufferFormat,
    /// The compositor failed the frame while copying into the buffer.
    CopyFailed,
}

/// What the capture does next.
#[derive(Clone, Copy, Debug, PartialEq, Eq, Structural)]
pub enum CaptureStep {
    /// Wait for and handle more events.
    Dispatch,
    /// Destroy the frame (and buffer) and report the error.
    Abort(CaptureError),
    /// Create a buffer like this and ask the compositor to copy into it.
    StartCopy(BufferInfo),
    /// Read the buffer back: the frame is complete.
    Finish,
}

/// The capture's decision in `phase` given what the frame announced.
pub open spec fn spec_next_step(phase: CapturePhase, s: FrameState) -> CaptureStep {
    match phase {
        CapturePhase::Negotiating => if s.failed {
            CaptureStep::Abort(CaptureError::CaptureFailed)
        } else if !s.buffer_done {
            CaptureStep::Dispatch
        } else {
            match s.buffer_info {
                Some(info) => CaptureStep::StartCopy(info),
                None => CaptureStep::Abort(CaptureError::NoBufferFormat),
            }
        },
        CapturePhase::Copying => if s.ready {
            CaptureStep::Finish
        } else if s.failed {
            CaptureStep::Abort(CaptureError::CopyFailed)
        } else {
            CaptureStep::Dispatch
        },
    }
}

/// Decides the next step of a capture: in negotiation a failure aborts,
/// otherwise events are dispatched until the buffer announcement is done and
/// the announced buffer is copied into; while copying, events are dispatched
/// until the frame is ready, unless it fails first.
pub fn next_step(phase: CapturePhase, s: &FrameState) -> (r: CaptureStep)
    ensures
        r == spec_next_step(phase, *s),
{
    match phase {
        CapturePhase::Negotiating => {
            if s.failed {
                CaptureStep::Abort(CaptureError::CaptureFailed)
            } else if !s.buffer_done {
                CaptureStep::Dispatch
            } else {
                match s.buffer_info {
                    Some(info) => CaptureStep::StartCopy(info),
                    None => CaptureStep::Abort(CaptureError::NoBufferFormat),
                }
            }
        },
        CapturePhase::Copying => {
            if s.ready {
                CaptureStep::Finish
            } else if s.failed {
                CaptureStep::Abort(CaptureError::CopyFailed)
            } else {
                CaptureStep::Dispatch
            }
        },
    }
}

/// Bytes `s` with the fourth byte of every pixel set to 0xFF (fully opaque).
pub open spec fn spec_opaque(s: Seq<u8>) -> Seq<u8> {
    Seq::new(s.len(), |i: int| if i % 4 == 3 { 0xFFu8 } else { s[i] })
}

/// Forces every complete 4-byte pixel of `bytes` to be opaque; a trailing
/// partial pixel is left alone.
pub fn force_opaque(bytes: &mut Vec<u8>)
    ensures
        final(bytes)@ == spec_opaque(old(bytes)@),
{
    let n = bytes.len();
    let ghost orig = bytes@;
    let mut i: usize = 3;
    while i < n
        invariant
            n == bytes.len(),
            orig == old(bytes)@,
            orig.len() == n,
            i % 4 == 3,
            forall|j: int| 0 <= j < n ==> #[trigger] bytes@[j] == (if j % 4 == 3 && j < i {
                0xFFu8
            } else {
                orig[j]
            }),
        decreases n - i,
    {
        bytes.set(i, 0xFF);
        if n - i <= 4 {
            i = n;
            assert forall|j: int| 0 <= j < n implies #[trigger] bytes@[j] == (if j % 4 == 3 {
                0xFFu8
            } else {
                orig[j]
            }) by {}
            assert(bytes@ =~= spec_opaque(orig));
            return;
        }
        i = i + 4;
    }
    assert(bytes@ =~= spec_opaque(orig));
}

/// A captured frame: buffer geometry, pixel format, orientation and pixels.
#[derive(Debug)]
pub struct FrameData {
    pub width: u32,
    pub height: u32,
    pub stride: u32,
    pub format: ShmFormat,
    pub y_invert: bool,
    pub bytes: Vec<u8>,
}

/// Completes a capture: the frame has the geometry and format of the buffer
/// `info` it was copied into and the orientation that `s` announced; pixels of
/// a format with undefined alpha are forced opaque, others kept as read.
pub fn finish_frame(info: BufferInfo, s: &FrameState, bytes: Vec<u8>) -> (f: FrameData)
    ensures
        f.width == info.width,
        f.height == info.height,
        f.stride == info.stride,
        f.format == info.format,
        f.y_invert == s.y_invert,
        f.bytes@ == (if spec_has_undefined_alpha(info.format) {
            spec_opaque(bytes@)
        } else {
            bytes@
        }),
{
    let mut bytes = bytes;
    if has_undefined_alpha(info.format) {
        force_opaque(&mut bytes);
    }
    FrameData {
        width: info.width,
        height: info.height,
        stride: info.stride,
        format: info.format,
        y_invert: s.y_invert,
        bytes,
    }
}

/// The last buffer announcement among `evs`, if any.
pub open spec fn last_buffer(evs: Seq<FrameEvent>) -> Option<BufferInfo>
    decreases evs.len(),
{
    if evs.len() == 0 {
        None
    } else {
        match evs.last() {
            FrameEvent::Buffer(info) => Some(info),
            _ => last_buffer(evs.drop_last()),
        }
    }
}

/// Once a frame has failed, or announced its buffer as done, or become
/// ready, no later event takes that back.
pub proof fn lemma_flags_sticky(s: FrameState, evs: Seq<FrameEvent>)
    ensures
        s.failed ==> spec_run(s, evs).failed,
        s.buffer_done ==> spec_run(s, evs).buffer_done,
        s.ready ==> spec_run(s, evs).ready,
    decreases evs.len(),
{
    if evs.len() > 0 {
        lemma_flags_sticky(s, evs.drop_last());
    }
}

/// The buffer a capture copies into is the one the frame announced last.
pub proof fn lemma_last_buffer_wins(s: FrameState, evs: Seq<FrameEvent>)
    ensures
        spec_run(s, evs).buffer_info == (match last_buffer(evs) {
            Some(info) => Some(info),
            None => s.buffer_info,
        }),
    decreases evs.len(),
{
    if evs.len() > 0 {
        lemma_last_buffer_wins(s, evs.drop_last());
    }
}

/// A failure before the copy always aborts the capture, whatever follows;
/// and a capture only finishes once the frame is ready, while copying.
pub proof fn lemma_failed_capture_aborts(s: FrameState, evs: Seq<FrameEvent>)
    requires
        s.failed,
    ensures
        spec_next_step(CapturePhase::Negotiating, spec_run(s, evs)) == CaptureStep::Abort(
            CaptureError::CaptureFailed,
        ),
        forall|phase: CapturePhase, t: FrameState|
            spec_next_step(phase, t) == CaptureStep::Finish ==> phase == CapturePhase::Copying
                && t.ready,
{
    lemma_flags_sticky(s, evs);
}

/// Forcing opacity keeps the length and the colour bytes, makes every alpha
/// byte 0xFF, and doing it twice is doing it once.
pub proof fn lemma_opaque(s: Seq<u8>)
    ensures
        spec_opaque(s).len() == s.len(),
        forall|i: int| 0 <= i < s.len() && i % 4 != 3 ==> spec_opaque(s)[i] == s[i],
        forall|i: int| 0 <= i < s.len() && i % 4 == 3 ==> spec_opaque(s)[i] == 0xFFu8,
        spec_opaque(spec_opaque(s)) == spec_opaque(s),
{
    assert(spec_opaque(spec_opaque(s)) =~= spec_opaque(s));
}

/// A finished frame is opaque exactly for the X-formats: for `Xrgb8888` and
/// `Xbgr8888`, whose fourth byte per pixel is undefined, every such byte of
/// the finished pixels is 0xFF and the colour bytes are as read; for every
/// other format the pixels are exactly as read.
pub proof fn lemma_x_formats_opaque(f: ShmFormat, read: Seq<u8>, finished: Seq<u8>)
    requires
        finished == (if spec_has_undefined_alpha(f) {
            spec_opaque(read)
        } else {
            read
        }),
    ensures
        finished.len() == read.len(),
        (f == ShmFormat::Xrgb8888 || f == ShmFormat::Xbgr8888) ==> forall|i: int|
            0 <= i < read.len() ==> #[trigger] finished[i] == (if i % 4 == 3 {
                0xFFu8
            } else {
                read[i]
            }),
        !(f == ShmFormat::Xrgb8888 || f == ShmFormat::Xbgr8888) ==> finished == read,
{
}

} // verus!
