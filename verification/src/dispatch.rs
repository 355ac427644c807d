//! The envelope dispatched to the GUI host with each comment.

use crate::ingest::dispatched_text;
use crate::placement::{draw_offset_top_ppm, TOP_RATIO_LIMIT_PPM};
use crate::schema::{encoded_comment, CommentSchema};
use vstd::prelude::*;

verus! {

/// One comment as dispatched: sequence id, encoded text, and vertical
/// placement in parts per million of screen height.
pub struct Comment {
    pub id: usize,
    pub text: String,
    pub offset_top_ratio_ppm: u32,
}

/// Which overlay window an event targets and how the overlay spans displays.
pub struct RendererInfo {
    pub window_index: usize,
    pub num_displays: usize,
    pub is_single_window: bool,
}

/// The payload of one `comment` event.
pub struct OnCommentReceivedPayload {
    pub comment: Comment,
    pub renderer_info: RendererInfo,
}

/// A placement admissible for dispatch: strictly below nine tenths of screen
/// height.
pub open spec fn valid_offset_ppm(ppm: u32) -> bool {
    ppm < TOP_RATIO_LIMIT_PPM
}

impl OnCommentReceivedPayload {
    /// Assemble the dispatch envelope: id 0 and the constant single-window
    /// renderer info.
    pub fn assemble(text: String, offset_top_ratio_ppm: u32) -> (r: Self)
        requires
            valid_offset_ppm(offset_top_ratio_ppm),
        ensures
            r.comment.id == 0,
            r.comment.text == text,
            r.comment.offset_top_ratio_ppm == offset_top_ratio_ppm,
            r.renderer_info.window_index == 0,
            r.renderer_info.num_displays == 1,
            r.renderer_info.is_single_window,
    {
        OnCommentReceivedPayload {
            comment: Comment { id: 0, text, offset_top_ratio_ppm },
            renderer_info: RendererInfo {
                window_index: 0,
                num_displays: 1,
                is_single_window: true,
            },
        }
    }
}

/// Decide one connection's event: keep the raw payload or the encoding of
/// its parsed schema, draw an independent placement, and assemble the
/// envelope.
pub fn build_event(parsed: Option<CommentSchema>, raw: String) -> (r: OnCommentReceivedPayload)
    ensures
        (match parsed {
            Some(c) => r.comment.text@ == encoded_comment(c@),
            None => r.comment.text@ == raw@,
        }),
        r.comment.id == 0,
        valid_offset_ppm(r.comment.offset_top_ratio_ppm),
        r.renderer_info.window_index == 0,
        r.renderer_info.num_displays == 1,
        r.renderer_info.is_single_window,
{
    let text = dispatched_text(parsed, raw);
    let offset = draw_offset_top_ppm();
    OnCommentReceivedPayload::assemble(text, offset)
}

} // verus!
