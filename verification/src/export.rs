//! The export pipeline: which frames are rendered, under which names they are
//! stored, how the encoder is invoked, and how a failure ends the export.
//!
//! Rendering, writing files and running the encoder belong to the caller.
//! The caller asks an `ExportState` for its `action`, carries it out, and
//! reports what happened with `step`.

use vstd::prelude::*;
use vstd::string::*;
use crate::text::{decimal, decimal_string, texts, zero_padded, zero_padded_string};

verus! {

/// Number of digits to which a frame's index is padded in its file name.
pub const FRAME_INDEX_WIDTH: usize = 6;

/// The video codecs that an export can ask of the encoder.
#[derive(Clone, Copy, Debug, PartialEq, Eq, Structural)]
pub enum VideoCodec {
    H264,
    ProRes,
    Vp9,
    Av1,
}

impl Default for VideoCodec {
    fn default() -> (codec: VideoCodec)
        ensures
            codec == VideoCodec::H264,
    {
        VideoCodec::H264
    }
}

impl VideoCodec {
    /// The name shown for the codec.
    pub open spec fn spec_label(self) -> Seq<char> {
        match self {
            VideoCodec::H264 => "H.264"@,
            VideoCodec::ProRes => "ProRes 422"@,
            VideoCodec::Vp9 => "VP9"@,
            VideoCodec::Av1 => "AV1"@,
        }
    }

    /// The encoder arguments that select the codec. H.264, VP9 and AV1 are
    /// controlled by the constant rate factor `crf`, VP9 and AV1 with no cap
    /// on the bit rate; ProRes has a fixed 10-bit 4:2:2 profile and ignores
    /// `crf`.
    pub open spec fn spec_ffmpeg_args(self, crf: u8) -> Seq<Seq<char>> {
        match self {
            VideoCodec::H264 => seq![
                "-c:v"@,
                "libx264"@,
                "-pix_fmt"@,
                "yuv420p"@,
                "-crf"@,
                decimal(crf as nat),
            ],
            VideoCodec::ProRes => seq![
                "-c:v"@,
                "prores_ks"@,
                "-profile:v"@,
                "3"@,
                "-pix_fmt"@,
                "yuv422p10le"@,
            ],
            VideoCodec::Vp9 => seq![
                "-c:v"@,
                "libvpx-vp9"@,
                "-b:v"@,
                "0"@,
                "-crf"@,
                decimal(crf as nat),
            ],
            VideoCodec::Av1 => seq![
                "-c:v"@,
                "libaom-av1"@,
                "-b:v"@,
                "0"@,
                "-crf"@,
                decimal(crf as nat),
            ],
        }
    }

    pub fn label(&self) -> (name: &'static str)
        ensures
            name@ == self.spec_label(),
    {
        match self {
            VideoCodec::H264 => "H.264",
            VideoCodec::ProRes => "ProRes 422",
            VideoCodec::Vp9 => "VP9",
            VideoCodec::Av1 => "AV1",
        }
    }

    pub fn ffmpeg_args(&self, crf: u8) -> (args: Vec<String>)
        ensures
            texts(args@) == self.spec_ffmpeg_args(crf),
    {
        let mut args: Vec<String> = Vec::new();
        args.push(String::from_str("-c:v"));
        match self {
            VideoCodec::H264 => {
                args.push(String::from_str("libx264"));
                args.push(String::from_str("-pix_fmt"));
                args.push(String::from_str("yuv420p"));
                args.push(String::from_str("-crf"));
                args.push(decimal_string(crf as u32));
            },
            VideoCodec::ProRes => {
                args.push(String::from_str("prores_ks"));
                args.push(String::from_str("-profile:v"));
                args.push(String::from_str("3"));
                args.push(String::from_str("-pix_fmt"));
                args.push(String::from_str("yuv422p10le"));
            },
            VideoCodec::Vp9 => {
                args.push(String::from_str("libvpx-vp9"));
                args.push(String::from_str("-b:v"));
                args.push(String::from_str("0"));
                args.push(String::from_str("-crf"));
                args.push(decimal_string(crf as u32));
            },
            VideoCodec::Av1 => {
                args.push(String::from_str("libaom-av1"));
                args.push(String::from_str("-b:v"));
                args.push(String::from_str("0"));
                args.push(String::from_str("-crf"));
                args.push(decimal_string(crf as u32));
            },
        }
        assert(texts(args@) =~= self.spec_ffmpeg_args(crf));
        args
    }
}

/// The file name under which frame `index` is stored.
pub open spec fn spec_frame_file_name(index: u32) -> Seq<char> {
    "frame_"@ + zero_padded(index as nat, FRAME_INDEX_WIDTH as nat) + ".png"@
}

/// The pattern by which the encoder finds the frames stored in `frames_dir`.
pub open spec fn spec_frame_pattern(frames_dir: Seq<char>) -> Seq<char> {
    frames_dir + "/frame_%06d.png"@
}

/// The whole argument list of the encoder: overwrite the output, read the
/// numbered frames of `frames_dir` at `fps` frames per second, encode with
/// the codec's arguments, write to `out_path`.
pub open spec fn spec_encoder_args(
    fps: u32,
    frames_dir: Seq<char>,
    codec: VideoCodec,
    crf: u8,
    out_path: Seq<char>,
) -> Seq<Seq<char>> {
    seq!["-y"@, "-framerate"@, decimal(fps as nat), "-i"@, spec_frame_pattern(frames_dir)]
        + codec.spec_ffmpeg_args(crf) + seq![out_path]
}

/// The file name of a frame: `frame_`, the index in decimal with at least
/// six digits, `.png`.
pub fn frame_file_name(index: u32) -> (name: String)
    ensures
        name@ == spec_frame_file_name(index),
{
    let mut name = String::from_str("frame_");
    let digits = zero_padded_string(index, FRAME_INDEX_WIDTH);
    name.append(digits.as_str());
    name.append(".png");
    name
}

/// The arguments with which the encoder turns the stored frames into a
/// video.
pub fn encoder_args(fps: u32, frames_dir: &str, codec: VideoCodec, crf: u8, out_path: &str) -> (args:
    Vec<String>)
    ensures
        texts(args@) == spec_encoder_args(fps, frames_dir@, codec, crf, out_path@),
{
    let mut args: Vec<String> = Vec::new();
    args.push(String::from_str("-y"));
    args.push(String::from_str("-framerate"));
    args.push(decimal_string(fps));
    args.push(String::from_str("-i"));
    let mut pattern = String::from_str(frames_dir);
    pattern.append("/frame_%06d.png");
    args.push(pattern);
    let ghost head = args@;
    let mut selected = codec.ffmpeg_args(crf);
    let ghost middle = selected@;
    args.append(&mut selected);
    args.push(String::from_str(out_path));
    proof {
        assert(args@ =~= head + middle + seq![args@.last()]);
        assert(texts(args@) =~= spec_encoder_args(fps, frames_dir@, codec, crf, out_path@));
    }
    args
}

/// Why an export ended without a video.
#[derive(Clone, Copy, Debug, PartialEq, Eq, Structural)]
pub enum ExportFailure {
    /// A frame could not be stored; the frames after it were not rendered.
    FrameWrite,
    /// Every frame was stored, but the encoder could not be started or
    /// reported a failure.
    Encoder,
}

/// What the caller has to do next.
#[derive(Clone, Copy, Debug, PartialEq, Eq, Structural)]
pub enum ExportAction {
    /// Render the frame with this index and store it under its file name.
    RenderFrame(u32),
    /// Run the encoder over the stored frames.
    RunEncoder,
    /// The video is written; nothing is left to do.
    ReportSuccess,
    /// The export has failed; nothing is left to do.
    ReportFailure(ExportFailure),
}

/// What the caller reports after carrying out an action.
#[derive(Clone, Copy, Debug, PartialEq, Eq, Structural)]
pub enum ExportEvent {
    FrameStored,
    FrameStoreFailed,
    EncoderSucceeded,
    EncoderFailed,
}

/// Where an export of `total` frames stands.
#[derive(Clone, Copy, Debug, PartialEq, Eq, Structural)]
pub enum ExportState {
    /// The frames below `next` are stored; `next` is due.
    Rendering { next: u32, total: u32 },
    /// All frames are stored; the encoder is due.
    Encoding,
    Succeeded,
    Failed(ExportFailure),
}

impl ExportState {
    /// A state that `start` and `step` can reach: a frame that is due is one
    /// of the export's frames.
    pub open spec fn wf(self) -> bool {
        match self {
            ExportState::Rendering { next, total } => next < total,
            _ => true,
        }
    }

    pub open spec fn spec_start(total: u32) -> ExportState {
        if total == 0 {
            ExportState::Encoding
        } else {
            ExportState::Rendering { next: 0, total }
        }
    }

    pub open spec fn spec_action(self) -> ExportAction {
        match self {
            ExportState::Rendering { next, total } => ExportAction::RenderFrame(next),
            ExportState::Encoding => ExportAction::RunEncoder,
            ExportState::Succeeded => ExportAction::ReportSuccess,
            ExportState::Failed(failure) => ExportAction::ReportFailure(failure),
        }
    }

    pub open spec fn spec_step(self, event: ExportEvent) -> ExportState {
        match (self, event) {
            (ExportState::Rendering { next, total }, ExportEvent::FrameStored) => {
                if next + 1 < total {
                    ExportState::Rendering { next: (next + 1) as u32, total }
                } else {
                    ExportState::Encoding
                }
            },
            (ExportState::Rendering { next, total }, ExportEvent::FrameStoreFailed) => {
                ExportState::Failed(ExportFailure::FrameWrite)
            },
            (ExportState::Encoding, ExportEvent::EncoderSucceeded) => ExportState::Succeeded,
            (ExportState::Encoding, ExportEvent::EncoderFailed) => ExportState::Failed(
                ExportFailure::Encoder,
            ),
            _ => self,
        }
    }

    /// The state after the first `stored` frames of an export of `total`
    /// frames have been stored one after the other.
    pub open spec fn after_stored(total: u32, stored: nat) -> ExportState
        decreases stored,
    {
        if stored == 0 {
            Self::spec_start(total)
        } else {
            Self::after_stored(total, (stored - 1) as nat).spec_step(ExportEvent::FrameStored)
        }
    }

    /// The state of an export of `total` frames before anything is done.
    #[verifier::when_used_as_spec(spec_start)]
    pub fn start(total: u32) -> (state: ExportState)
        ensures
            state == Self::spec_start(total),
            state.wf(),
    {
        if total == 0 {
            ExportState::Encoding
        } else {
            ExportState::Rendering { next: 0, total }
        }
    }

    /// What is to be done in this state.
    #[verifier::when_used_as_spec(spec_action)]
    pub fn action(self) -> (action: ExportAction)
        ensures
            action == self.spec_action(),
    {
        match self {
            ExportState::Rendering { next, total } => ExportAction::RenderFrame(next),
            ExportState::Encoding => ExportAction::RunEncoder,
            ExportState::Succeeded => ExportAction::ReportSuccess,
            ExportState::Failed(failure) => ExportAction::ReportFailure(failure),
        }
    }

    /// The state after the caller has reported `event`.
    ///
    /// A stored frame makes the next frame due, or the encoder after the
    /// last frame. A frame that could not be stored ends the export at once.
    /// The encoder's outcome ends it either way. A report that does not
    /// answer the state's action changes nothing.
    #[verifier::when_used_as_spec(spec_step)]
    pub fn step(self, event: ExportEvent) -> (state: ExportState)
        requires
            self.wf(),
        ensures
            state == self.spec_step(event),
            state.wf(),
    {
        match self {
            ExportState::Rendering { next, total } => match event {
                ExportEvent::FrameStored => {
                    if next + 1 < total {
                        ExportState::Rendering { next: next + 1, total }
                    } else {
                        ExportState::Encoding
                    }
                },
                ExportEvent::FrameStoreFailed => ExportState::Failed(ExportFailure::FrameWrite),
                _ => self,
            },
            ExportState::Encoding => match event {
                ExportEvent::EncoderSucceeded => ExportState::Succeeded,
                ExportEvent::EncoderFailed => ExportState::Failed(ExportFailure::Encoder),
                _ => self,
            },
            _ => self,
        }
    }
}

/// An export of `total` frames renders the frames `0`, `1`, up to
/// `total - 1`, each once and in this order, and then runs the encoder: after
/// `stored` frames the frame `stored` is due while frames are left, and the
/// encoder once all of them are stored.
pub proof fn lemma_frame_schedule(total: u32, stored: nat)
    requires
        stored <= total,
    ensures
        ExportState::after_stored(total, stored).spec_action() == if stored < total {
            ExportAction::RenderFrame(stored as u32)
        } else {
            ExportAction::RunEncoder
        },
        ExportState::after_stored(total, stored) == if stored < total {
            (ExportState::Rendering { next: stored as u32, total })
        } else {
            ExportState::Encoding
        },
    decreases stored,
{
    if stored > 0 {
        lemma_frame_schedule(total, (stored - 1) as nat);
    }
}

/// An export that has ended stays as it is whatever is reported.
pub proof fn lemma_ended_is_final(state: ExportState, event: ExportEvent)
    requires
        state == ExportState::Succeeded || state is Failed,
    ensures
        state.spec_step(event) == state,
{
}

/// The encoder is never run after a frame could not be stored: the export
/// fails at that frame and stays failed.
pub proof fn lemma_failed_frame_aborts(total: u32, stored: nat, later: ExportEvent)
    requires
        stored < total,
    ensures
        ExportState::after_stored(total, stored).spec_step(ExportEvent::FrameStoreFailed)
            == ExportState::Failed(ExportFailure::FrameWrite),
        ExportState::after_stored(total, stored).spec_step(ExportEvent::FrameStoreFailed).spec_step(
            later,
        ) == ExportState::Failed(ExportFailure::FrameWrite),
{
    lemma_frame_schedule(total, stored);
}

} // verus!
