//! Constant display defaults answered to the renderer at page load.

use vstd::prelude::*;
use vstd::string::StringExecFns;

verus! {

/// How long a comment stays on screen, in milliseconds.
pub fn request_duration() -> (r: usize)
    ensures
        r == 5000,
{
    5000
}

/// The duration used when a comment carries no override, in milliseconds.
pub fn request_default_duration() -> (r: usize)
    ensures
        r == 5000,
{
    5000
}

/// Default fill style for comment text.
pub fn request_text_color_style() -> (r: String)
    ensures
        r@ == "rgba(255, 255, 255, 1.0)"@,
{
    String::from_str("rgba(255, 255, 255, 1.0)")
}

/// Default stroke style for comment text.
pub fn request_text_stroke_style() -> (r: String)
    ensures
        r@ == "2px rgba(0, 0, 0, 1.0)"@,
{
    String::from_str("2px rgba(0, 0, 0, 1.0)")
}

/// Whether newlines are rendered.
pub fn request_newline_enabled() -> (r: bool)
    ensures
        r,
{
    true
}

/// Whether author icons are rendered.
pub fn request_icon_enabled() -> (r: bool)
    ensures
        r,
{
    true
}

/// Whether inline images are rendered.
pub fn request_inline_img_enabled() -> (r: bool)
    ensures
        r,
{
    true
}

/// Whether trailing images are rendered.
pub fn request_img_enabled() -> (r: bool)
    ensures
        r,
{
    true
}

/// Whether trailing videos are rendered.
pub fn request_video_enabled() -> (r: bool)
    ensures
        r,
{
    true
}

/// Whether icons are clipped to a circle.
pub fn request_round_icon_enabled() -> (r: bool)
    ensures
        r,
{
    true
}

} // verus!
