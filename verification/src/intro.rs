//! The intro video's frames as the decoder hands them over, the choice of
//! the frame to show, and the errors of intro playback. Running the decoder
//! and the audio, and the clock, belong to the caller.

use std::collections::VecDeque;
use std::path::PathBuf;
use vstd::prelude::*;
use crate::document::io_error_text;

verus! {

/// `std::path::PathBuf`, carried through to name a missing file.
#[verifier::external_type_specification]
#[verifier::external_body]
pub struct ExPathBuf(std::path::PathBuf);

/// `Display` of a path (`Path::display`): its text, with what is not UTF-8
/// replaced. What the text says is left unsaid here.
#[verifier::external_body]
fn path_text(p: &PathBuf) -> String {
    p.display().to_string()
}

/// One decoded video frame: RGBA pixels, row by row.
#[derive(Debug, Clone)]
pub struct IntroFrame {
    pub width: u32,
    pub height: u32,
    pub rgba: Vec<u8>,
}

/// A frame and its place in the video, counting from 0.
#[derive(Debug, Clone)]
pub struct DecodedFrame {
    pub index: usize,
    pub frame: IntroFrame,
}

/// What the decoder sends.
pub enum DecodeEvent {
    Frame(DecodedFrame),
    Finished,
    Error(String),
}

/// What a look at the decoder's channel found.
pub enum Received {
    /// The decoder sent this.
    Event(DecodeEvent),
    /// Nothing is waiting.
    Empty,
    /// The decoder has gone.
    Disconnected,
}

/// What one read of a frame's bytes from the decoder's output gave.
pub enum FrameRead {
    /// A whole frame of RGBA bytes.
    Frame(Vec<u8>),
    /// The output ended before another frame began.
    End,
    /// The read failed; the text says why.
    Failed(String),
}

/// What the decoder sends after a read of the frame numbered `frame_index`,
/// and whether it reads on: a frame is sent under that number, and reading
/// goes on; an end after no frame at all is an error, after some frames
/// the decoding is finished; a failed read is an error. `path` is the video
/// as it is shown in messages.
pub fn decode_step(frame_index: usize, width: u32, height: u32, read: FrameRead, path: &str) -> (r: (
    DecodeEvent,
    bool,
))
    ensures
        match read {
            FrameRead::Frame(rgba) => {
                &&& r.1
                &&& r.0 matches DecodeEvent::Frame(f) && f.index == frame_index && f.frame.width
                    == width && f.frame.height == height && f.frame.rgba == rgba
            },
            FrameRead::End => !r.1 && if frame_index == 0 {
                r.0 matches DecodeEvent::Error(m) && m@ == "ffmpeg produced no frames for "@
                    + path@
            } else {
                r.0 matches DecodeEvent::Finished
            },
            FrameRead::Failed(cause) => {
                &&& !r.1
                &&& r.0 matches DecodeEvent::Error(m) && m@ == "failed while decoding video frames from "@
                    + path@ + ": "@ + cause@
            },
        },
{
    match read {
        FrameRead::Frame(rgba) => (
            DecodeEvent::Frame(DecodedFrame { index: frame_index, frame: IntroFrame { width, height, rgba } }),
            true,
        ),
        FrameRead::End => {
            if frame_index == 0 {
                let mut m = String::new();
                m.push_str("ffmpeg produced no frames for ");
                m.push_str(path);
                (DecodeEvent::Error(m), false)
            } else {
                (DecodeEvent::Finished, false)
            }
        },
        FrameRead::Failed(cause) => {
            let mut m = String::new();
            m.push_str("failed while decoding video frames from ");
            m.push_str(path);
            m.push_str(": ");
            m.push_str(cause.as_str());
            (DecodeEvent::Error(m), false)
        },
    }
}

/// The first frame of a video, from the decoder's first event, or from
/// why none came in time (`Err` with the wait's own words): a frame is the
/// first frame; the decoder's error is a decoding error; the decoder done
/// with no frame is that error for `path`; no event is a decoding error
/// that says the wait timed out. `path_shown` is `path` as it is shown in
/// messages.
pub fn first_frame(received: Result<DecodeEvent, String>, path: PathBuf, path_shown: &str) -> (r:
    Result<DecodedFrame, IntroError>)
    ensures
        match received {
            Ok(DecodeEvent::Frame(f)) => r == Ok::<DecodedFrame, IntroError>(f),
            Ok(DecodeEvent::Error(m)) => r matches Err(IntroError::VideoDecode(x)) && x@ == m@,
            Ok(DecodeEvent::Finished) => r matches Err(IntroError::NoFramesDecoded(p)) && p == path,
            Err(cause) => r matches Err(IntroError::VideoDecode(x)) && x@
                == "timed out waiting for the first decoded frame from "@ + path_shown@ + ": "@
                + cause@,
        },
{
    match received {
        Ok(DecodeEvent::Frame(frame)) => Ok(frame),
        Ok(DecodeEvent::Error(message)) => Err(IntroError::VideoDecode(message)),
        Ok(DecodeEvent::Finished) => Err(IntroError::NoFramesDecoded(path)),
        Err(cause) => {
            let mut m = String::new();
            m.push_str("timed out waiting for the first decoded frame from ");
            m.push_str(path_shown);
            m.push_str(": ");
            m.push_str(cause.as_str());
            Err(IntroError::VideoDecode(m))
        },
    }
}

/// Why intro playback failed.
#[derive(Debug)]
pub enum IntroError {
    Io(std::io::Error),
    AudioPlayback(String),
    InvalidAssetName(PathBuf),
    MissingIntroRoot(PathBuf),
    MissingVideoFile(PathBuf),
    VideoProbe(String),
    VideoDecode(String),
    NoFramesDecoded(PathBuf),
}

impl IntroError {
    /// The message of the error: the message it carries, or a sentence that
    /// names the path or gives the I/O error's own words.
    pub fn to_string(&self) -> (r: String)
        ensures
            match self {
                IntroError::AudioPlayback(m) => r@ == m@,
                IntroError::VideoProbe(m) => r@ == m@,
                IntroError::VideoDecode(m) => r@ == m@,
                IntroError::Io(_) => true,
                IntroError::InvalidAssetName(_) => exists|t: Seq<char>|
                    r@ == "invalid intro asset name from path: "@ + t,
                IntroError::MissingIntroRoot(_) => exists|t: Seq<char>|
                    r@ == "intro asset directory does not exist: "@ + t,
                IntroError::MissingVideoFile(_) => exists|t: Seq<char>|
                    r@ == "intro video file does not exist: "@ + t,
                IntroError::NoFramesDecoded(_) => exists|t: Seq<char>|
                    r@ == "ffmpeg returned no frames for "@ + t,
            },
    {
        match self {
            IntroError::Io(e) => io_error_text(e),
            IntroError::AudioPlayback(m) => m.clone(),
            IntroError::VideoProbe(m) => m.clone(),
            IntroError::VideoDecode(m) => m.clone(),
            IntroError::InvalidAssetName(p) => {
                let mut s = String::new();
                s.push_str("invalid intro asset name from path: ");
                s.push_str(path_text(p).as_str());
                s
            },
            IntroError::MissingIntroRoot(p) => {
                let mut s = String::new();
                s.push_str("intro asset directory does not exist: ");
                s.push_str(path_text(p).as_str());
                s
            },
            IntroError::MissingVideoFile(p) => {
                let mut s = String::new();
                s.push_str("intro video file does not exist: ");
                s.push_str(path_text(p).as_str());
                s
            },
            IntroError::NoFramesDecoded(p) => {
                let mut s = String::new();
                s.push_str("ffmpeg returned no frames for ");
                s.push_str(path_text(p).as_str());
                s
            },
        }
    }
}

/// How many frames at the front of `pending` are due by `frame_index`.
pub open spec fn due_count(pending: Seq<DecodedFrame>, frame_index: usize) -> nat
    decreases pending.len(),
{
    if pending.len() > 0 && pending[0].index <= frame_index {
        1 + due_count(pending.drop_first(), frame_index)
    } else {
        0
    }
}

proof fn lemma_due_count_bound(pending: Seq<DecodedFrame>, frame_index: usize)
    ensures
        due_count(pending, frame_index) <= pending.len(),
        forall|j: int|
            0 <= j < due_count(pending, frame_index) ==> #[trigger] pending[j].index <= frame_index,
    decreases pending.len(),
{
    if pending.len() > 0 && pending[0].index <= frame_index {
        lemma_due_count_bound(pending.drop_first(), frame_index);
        assert forall|j: int| 0 <= j < due_count(pending, frame_index) implies #[trigger] pending[j].index
            <= frame_index by {
            if j > 0 {
                assert(pending[j] == pending.drop_first()[j - 1]);
            }
        }
    }
}

/// Whether frames are in the decoder's order: the pending ones by strictly
/// rising index, all after the one shown.
pub open spec fn in_order(current: Option<DecodedFrame>, pending: Seq<DecodedFrame>) -> bool {
    &&& forall|i: int, j: int|
        0 <= i < j < pending.len() ==> #[trigger] pending[i].index < #[trigger] pending[j].index
    &&& current matches Some(c) ==> forall|i: int|
        0 <= i < pending.len() ==> c.index < #[trigger] pending[i].index
}

/// The frame that `advance` shows.
pub open spec fn shown_after(current: Option<DecodedFrame>, pending: Seq<DecodedFrame>, frame_index: usize) -> Option<DecodedFrame> {
    if due_count(pending, frame_index) == 0 {
        current
    } else {
        Some(pending[due_count(pending, frame_index) - 1])
    }
}

/// The shown frame never goes back: when frames come in the decoder's
/// order, the frame that `advance` shows is the one shown before or a later
/// one, and what stays pending is still in order after it.
pub proof fn advance_moves_forward(
    current: Option<DecodedFrame>,
    pending: Seq<DecodedFrame>,
    frame_index: usize,
)
    requires
        in_order(current, pending),
    ensures
        in_order(
            shown_after(current, pending, frame_index),
            pending.skip(due_count(pending, frame_index) as int),
        ),
        current matches Some(c) ==> (shown_after(current, pending, frame_index) matches Some(s)
            && c.index <= s.index),
{
    lemma_due_count_bound(pending, frame_index);
    let n = due_count(pending, frame_index) as int;
    let rest = pending.skip(n);
    assert forall|i: int, j: int| 0 <= i < j < rest.len() implies #[trigger] rest[i].index
        < #[trigger] rest[j].index by {
        assert(rest[i] == pending[i + n]);
        assert(rest[j] == pending[j + n]);
    }
    if n > 0 {
        assert forall|i: int| 0 <= i < rest.len() implies pending[n - 1].index
            < #[trigger] rest[i].index by {
            assert(rest[i] == pending[i + n]);
        }
    } else {
        assert(rest =~= pending);
    }
}

/// The frames that the decoder has sent and that are not shown yet, and
/// whether the decoder has said that it is done.
pub struct DecodeQueue {
    pub pending: VecDeque<DecodedFrame>,
    pub finished: bool,
}

impl DecodeQueue {
    /// No frames yet, and the decoder not done.
    pub fn new() -> (r: Self)
        ensures
            r.pending@ == Seq::<DecodedFrame>::empty(),
            !r.finished,
    {
        DecodeQueue { pending: VecDeque::new(), finished: false }
    }

    /// Takes in what a look at the decoder's channel found. `Ok(true)`: look
    /// again; `Ok(false)`: nothing more for now (the channel is empty, or
    /// closed after the decoder said it was done); an error: the decoder
    /// failed, or went away before it was done.
    pub fn receive(&mut self, received: Received) -> (r: Result<bool, IntroError>)
        ensures
            match received {
                Received::Event(DecodeEvent::Frame(f)) => r matches Ok(true)
                    && final(self).pending@ == old(self).pending@.push(f)
                    && final(self).finished == old(self).finished,
                Received::Event(DecodeEvent::Finished) => r matches Ok(true)
                    && final(self).pending@ == old(self).pending@ && final(self).finished,
                Received::Event(DecodeEvent::Error(m)) => r matches Err(IntroError::VideoDecode(x))
                    && x@ == m@ && final(self).pending@ == old(self).pending@
                    && final(self).finished == old(self).finished,
                Received::Empty => r matches Ok(false) && final(self).pending@ == old(self).pending@
                    && final(self).finished == old(self).finished,
                Received::Disconnected => final(self).pending@ == old(self).pending@
                    && final(self).finished == old(self).finished && if old(self).finished {
                    r matches Ok(false)
                } else {
                    r matches Err(IntroError::VideoDecode(x))
                        && x@ == "video decoder disconnected unexpectedly"@
                },
            },
    {
        match received {
            Received::Event(DecodeEvent::Frame(frame)) => {
                self.pending.push_back(frame);
                Ok(true)
            },
            Received::Event(DecodeEvent::Finished) => {
                self.finished = true;
                Ok(true)
            },
            Received::Event(DecodeEvent::Error(message)) => Err(IntroError::VideoDecode(message)),
            Received::Empty => Ok(false),
            Received::Disconnected => {
                if self.finished {
                    Ok(false)
                } else {
                    let mut s = String::new();
                    s.push_str("video decoder disconnected unexpectedly");
                    Err(IntroError::VideoDecode(s))
                }
            },
        }
    }

    /// The frame to show at `frame_index`: the frames at the front that are
    /// due by then leave the queue, and the last of them takes the place of
    /// `current`; with none due, `current` stays.
    pub fn advance(&mut self, current: Option<DecodedFrame>, frame_index: usize) -> (r: Option<
        DecodedFrame,
    >)
        ensures
            final(self).pending@ == old(self).pending@.skip(
                due_count(old(self).pending@, frame_index) as int,
            ),
            final(self).finished == old(self).finished,
            r == shown_after(current, old(self).pending@, frame_index),
            due_count(old(self).pending@, frame_index) > 0 ==> (r matches Some(f) && f.index
                <= frame_index),
    {
        let ghost start = self.pending@;
        let ghost total = due_count(start, frame_index);
        proof {
            lemma_due_count_bound(start, frame_index);
        }
        let mut shown = current;
        let ghost mut taken: int = 0;
        loop
            invariant
                0 <= taken <= total,
                total == due_count(start, frame_index),
                total <= start.len(),
                forall|j: int| 0 <= j < total ==> #[trigger] start[j].index <= frame_index,
                self.pending@ == start.skip(taken),
                due_count(self.pending@, frame_index) == total - taken,
                self.finished == old(self).finished,
                start == old(self).pending@,
                shown == if taken == 0 {
                    current
                } else {
                    Some(start[taken - 1])
                },
            ensures
                taken == total,
                self.pending@ == start.skip(total as int),
                self.finished == old(self).finished,
                shown == if total == 0 {
                    current
                } else {
                    Some(start[total - 1])
                },
            decreases self.pending@.len(),
        {
            if self.pending.len() == 0 {
                break;
            }
            if self.pending[0].index > frame_index {
                break;
            }
            let ghost before = self.pending@;
            shown = self.pending.pop_front();
            proof {
                assert(before.drop_first() =~= self.pending@);
                assert(start.skip(taken + 1) =~= start.skip(taken).drop_first());
                taken = taken + 1;
            }
        }
        shown
    }
}

} // verus!
