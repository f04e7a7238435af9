//! How a tile or an open item is decoded, step by step.
//!
//! A decode asks for one thing after the other (a file, a drawing, what a helper program prints)
//! until its pixels are there.

use crate::images::{
    decode_file, decode_target, failed_decode, file_picture, no_picture, printed_image,
    printed_picture, target_px, Picture, Pixels, TILE_PX,
};
use crate::media::{has_ext, is_svg, Kind, Source, SourceView, PLACEHOLDERS};
use crate::tiles::{music_byte, music_placeholder, video_byte, video_placeholder};
use crate::video::{
    args_view, attempts, cover_after, cover_before, cover_thumb, ffmpeg_frame, frame_after,
    frame_before, video_thumb, HelperArgs,
};
use vstd::prelude::*;

verus! {

/// What a decode needs next.
#[derive(Clone, Copy, PartialEq, Eq, Structural, Debug)]
pub enum Need {
    /// The file as a vector drawing.
    Drawing,
    /// The bytes of the file.
    Bytes,
    /// What the helper program prints of a video, after so many attempts have failed.
    Poster(usize),
    /// What the helper program prints of a music file.
    Cover,
    /// One of the sample drawings.
    Sample(usize),
    /// The gradient of a sample tile.
    Gradient(usize),
}

/// What a decode got.
pub enum Answer {
    /// A drawing; without pixels where drawing failed.
    Drawn(Pixels),
    /// The bytes of a file, where it could be read.
    Read(Option<Vec<u8>>),
    /// What a helper program printed. One that could not be started has failed.
    Printed { success: bool, output: Vec<u8> },
}

/// What comes next.
pub enum Step {
    Need(Need),
    /// The pixels are there. The poster of a video gets a badge on the wall.
    Done { pixels: Pixels, badge: bool },
}

/// What comes next.
pub enum StepView {
    Need(Need),
    Done { picture: Picture, badge: bool },
}

impl View for Step {
    type V = StepView;

    open spec fn view(&self) -> StepView {
        match *self {
            Step::Need(need) => StepView::Need(need),
            Step::Done { pixels, badge } => StepView::Done { picture: pixels@, badge },
        }
    }
}

/// What a decode needs first.
pub open spec fn first_need(s: SourceView) -> Need {
    match s {
        SourceView::Media(Kind::Image, path) => if has_ext(path, "svg"@) {
            Need::Drawing
        } else {
            Need::Bytes
        },
        SourceView::Media(Kind::Video, _) => Need::Poster(0),
        SourceView::Media(Kind::Audio, _) => Need::Cover,
        SourceView::Placeholder(i) => Need::Sample((i as int % 18) as usize),
    }
}

/// Whether the decode of an item can need something.
pub open spec fn may_need(s: SourceView, need: Need) -> bool {
    match need {
        Need::Poster(k) => s matches SourceView::Media(kind, _) && kind == Kind::Video && k
            < attempts().len(),
        Need::Cover => s matches SourceView::Media(kind, _) && kind == Kind::Audio,
        Need::Drawing | Need::Bytes => s matches SourceView::Media(kind, _) && kind == Kind::Image,
        Need::Sample(k) => s matches SourceView::Placeholder(i) && k == i as int % 18,
        Need::Gradient(i) => s == SourceView::Placeholder(i),
    }
}

/// Whether an answer is of the kind that was asked for.
pub open spec fn answers(need: Need, answer: Answer) -> bool {
    match need {
        Need::Drawing | Need::Sample(_) | Need::Gradient(_) => answer is Drawn,
        Need::Bytes => answer is Read,
        Need::Poster(_) | Need::Cover => answer is Printed,
    }
}

/// A drawing has bytes for its pixels, and no others. What is read is decoded to as many.
pub open spec fn is_exact(answer: Answer) -> bool {
    answer matches Answer::Drawn(p) ==> p@.exact()
}

/// The tile of a video without a poster.
pub open spec fn video_tile() -> Picture {
    Picture { rgba: Seq::new(1_048_576, |i: int| video_byte(i)), w: TILE_PX, h: TILE_PX }
}

/// The tile of music without cover art.
pub open spec fn music_tile() -> Picture {
    Picture { rgba: Seq::new(1_048_576, |i: int| music_byte(i)), w: TILE_PX, h: TILE_PX }
}

/// What comes after an answer.
pub open spec fn next_step(s: SourceView, full: bool, need: Need, answer: Answer) -> StepView {
    match (need, answer) {
        (Need::Bytes, Answer::Read(bytes)) => StepView::Done {
            picture: match bytes {
                Some(bytes) => file_picture(bytes@, s->Media_1, full),
                None => no_picture(),
            },
            badge: false,
        },
        (Need::Poster(k), Answer::Printed { success, output }) => match printed_picture(
            success,
            output@,
        ) {
            Some(picture) => StepView::Done { picture, badge: !full },
            None => if k + 1 < attempts().len() {
                StepView::Need(Need::Poster((k + 1) as usize))
            } else {
                StepView::Done { picture: video_tile(), badge: false }
            },
        },
        (_, Answer::Printed { success, output }) => StepView::Done {
            picture: match printed_picture(success, output@) {
                Some(picture) => picture,
                None => music_tile(),
            },
            badge: false,
        },
        (Need::Sample(_), Answer::Drawn(p)) => if p@.rgba.len() == 0 {
            StepView::Need(Need::Gradient(s->Placeholder_0))
        } else {
            StepView::Done { picture: p@, badge: false }
        },
        (_, Answer::Drawn(p)) => StepView::Done { picture: p@, badge: false },
        (_, Answer::Read(_)) => StepView::Done { picture: no_picture(), badge: false },
    }
}

/// How many answers a decode waits for at most.
pub open spec fn answers_left(need: Need) -> int {
    match need {
        Need::Poster(k) => 3 - k,
        Need::Sample(_) => 2,
        _ => 1,
    }
}

/// What the decode of an item needs first.
pub fn start_decode(source: &Source) -> (need: Need)
    ensures
        need == first_need(source@),
        may_need(source@, need),
{
    match source {
        Source::File(p) => if is_svg(p) {
            Need::Drawing
        } else {
            Need::Bytes
        },
        Source::Video(_) => Need::Poster(0),
        Source::Audio(_) => Need::Cover,
        Source::Placeholder(i) => Need::Sample(*i % PLACEHOLDERS),
    }
}

/// The arguments of the helper program, where one is needed.
pub fn helper_args(need: Need, full: bool) -> (args: Option<HelperArgs>)
    ensures
        match need {
            Need::Poster(k) => if k < attempts().len() {
                args matches Some(a) && args_view(a.before@) == frame_before(attempts()[k as int])
                    && args_view(a.after@) == frame_after(
                    attempts()[k as int],
                    target_px(full) as int,
                )
            } else {
                args is None
            },
            Need::Cover => args matches Some(a) && args_view(a.before@) == cover_before()
                && args_view(a.after@) == cover_after(target_px(full) as int),
            _ => args is None,
        },
{
    let target: u32 = decode_target(full);
    match need {
        Need::Poster(k) => match video_thumb(k) {
            Some(attempt) => Some(ffmpeg_frame(attempt, target)),
            None => None,
        },
        Need::Cover => Some(cover_thumb(target)),
        _ => None,
    }
}

/// Takes an answer over: the pixels of an item, or what its decode needs next. A video without a
/// poster and music without cover art get tiles of their own.
pub fn decode(source: &Source, full: bool, need: Need, answer: Answer) -> (step: Step)
    requires
        may_need(source@, need),
        answers(need, answer),
    ensures
        step@ == next_step(source@, full, need, answer),
        step@ matches StepView::Done { picture, .. } ==> {
            &&& is_exact(answer) ==> picture.exact()
            &&& need is Bytes ==> picture.w <= target_px(full) && picture.h <= target_px(full)
        },
        step@ matches StepView::Need(next) ==> may_need(source@, next) && answers_left(next)
            < answers_left(need),
{
    match answer {
        Answer::Read(bytes) => {
            assert(no_picture().exact()) by {
                assert(no_picture().w == 0 && no_picture().rgba.len() == 0);
            }
            let pixels: Pixels = match (source, bytes) {
                (Source::File(p), Some(bytes)) => decode_file(&bytes, p, full),
                _ => failed_decode(),
            };
            Step::Done { pixels, badge: false }
        },
        Answer::Printed { success, output } => {
            let printed = printed_image(success, &output);
            match need {
                Need::Poster(k) => match printed {
                    Some(pixels) => Step::Done { pixels, badge: !full },
                    None => if k < 2 {
                        Step::Need(Need::Poster(k + 1))
                    } else {
                        let pixels = Pixels { rgba: video_placeholder(), w: TILE_PX, h: TILE_PX };
                        assert(pixels@ =~= video_tile());
                        assert(pixels@.exact());
                        Step::Done { pixels, badge: false }
                    },
                },
                _ => match printed {
                    Some(pixels) => Step::Done { pixels, badge: false },
                    None => {
                        let pixels = Pixels { rgba: music_placeholder(), w: TILE_PX, h: TILE_PX };
                        assert(pixels@ =~= music_tile());
                        assert(pixels@.exact());
                        Step::Done { pixels, badge: false }
                    },
                },
            }
        },
        Answer::Drawn(pixels) => {
            match (need, source) {
                (Need::Sample(_), Source::Placeholder(i)) => {
                    if pixels.rgba.len() == 0 {
                        return Step::Need(Need::Gradient(*i));
                    }
                },
                _ => {},
            }
            Step::Done { pixels, badge: false }
        },
    }
}

} // verus!
