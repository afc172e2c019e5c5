use vstd::prelude::*;

verus! {

/// The latest frame of a video stream and the error that ended it.
#[derive(Debug)]
pub struct FrameState {
    /// How many frames were published.
    pub sequence: u64,
    pub frame: Vec<u8>,
    pub error: Option<String>,
}

/// A stream that has published nothing.
pub fn new_frames() -> (r: FrameState)
    ensures
        r.sequence == 0,
        r.frame@.len() == 0,
        r.error is None,
{
    FrameState { sequence: 0, frame: Vec::new(), error: None }
}

/// Publishes the next frame.
pub fn publish_frame(frames: &mut FrameState, frame: Vec<u8>)
    requires
        old(frames).sequence < u64::MAX,
    ensures
        final(frames).sequence == old(frames).sequence + 1,
        final(frames).frame@ == frame@,
        final(frames).error == old(frames).error,
{
    frames.sequence = frames.sequence + 1;
    frames.frame = frame;
}

/// Records the error that ended the stream.
pub fn set_error(frames: &mut FrameState, error: String)
    ensures
        final(frames).sequence == old(frames).sequence,
        final(frames).frame@ == old(frames).frame@,
        final(frames).error == Some(error),
{
    frames.error = Some(error);
}

/// What waiting for the first frame has come to.
#[derive(Debug)]
pub enum FirstFrame {
    /// Nothing yet: keep waiting.
    Pending,
    /// A frame arrived and no error.
    Ready,
    /// The stream failed.
    Failed(String),
}

/// Whether the first frame has arrived: an error ends the wait with the
/// error, a non-empty frame without error ends it successfully.
pub fn wait_for_first_frame(frames: &FrameState) -> (r: FirstFrame)
    ensures
        frames.error matches Some(e) ==> (r matches FirstFrame::Failed(m) && m == e),
        frames.error is None && frames.frame@.len() > 0 ==> r is Ready,
        frames.error is None && frames.frame@.len() == 0 ==> r is Pending,
{
    match &frames.error {
        Some(e) => FirstFrame::Failed(e.clone()),
        None => if frames.frame.len() > 0 {
            FirstFrame::Ready
        } else {
            FirstFrame::Pending
        },
    }
}

} // verus!
