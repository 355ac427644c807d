//! The structured comment schema and its marker-delimited encoding.
//!
//! A comment arrives as an optional set of fields; the renderer consumes a
//! single string in which literal ASCII markers delimit the fields. The
//! encoding appends the icon, color and stroke blocks first, then the text
//! body with `##INLINE##` placeholders substituted by the inline images in
//! order, then one tagged entry per image and per video.

use crate::text::{replace_first, splice_first};
use vstd::prelude::*;
use vstd::string::StringExecFns;

verus! {

/// The `##ICON##` sentinel closing the icon block.
pub open spec fn icon_marker() -> Seq<char> {
    "##ICON##"@
}

/// The `##COLOR##` sentinel closing the fill-style block.
pub open spec fn color_marker() -> Seq<char> {
    "##COLOR##"@
}

/// The `##TEXT_STROKE##` sentinel closing the stroke-style block.
pub open spec fn stroke_marker() -> Seq<char> {
    "##TEXT_STROKE##"@
}

/// The `##INLINE##` placeholder that inline images substitute.
pub open spec fn inline_marker() -> Seq<char> {
    "##INLINE##"@
}

/// The `##INLINE_IMG##` sentinel wrapping a substituted inline image.
pub open spec fn inline_img_marker() -> Seq<char> {
    "##INLINE_IMG##"@
}

/// The `##IMG##` sentinel introducing a trailing image.
pub open spec fn img_marker() -> Seq<char> {
    "##IMG##"@
}

/// The `##VIDEO##` sentinel introducing a trailing video.
pub open spec fn video_marker() -> Seq<char> {
    "##VIDEO##"@
}

/// A structured comment as decoded from the wire; every field is optional.
#[derive(Clone, Debug)]
pub struct CommentSchema {
    /// Message body; may contain `##INLINE##` placeholders.
    pub text: Option<String>,
    /// Author or badge icon identifier.
    pub icon: Option<String>,
    /// Identifiers shown after the text.
    pub images: Option<Vec<String>>,
    /// Identifiers shown after the images.
    pub videos: Option<Vec<String>>,
    /// Identifiers substituted into `##INLINE##` placeholders, left to right.
    pub inline_images: Option<Vec<String>>,
    /// Renderer-specific fill style.
    pub color: Option<String>,
    /// Renderer-specific stroke style.
    pub text_stroke: Option<String>,
}

/// The mathematical shadow of a `CommentSchema`: each field as a sequence.
pub ghost struct SchemaView {
    pub text: Option<Seq<char>>,
    pub icon: Option<Seq<char>>,
    pub images: Option<Seq<Seq<char>>>,
    pub videos: Option<Seq<Seq<char>>>,
    pub inline_images: Option<Seq<Seq<char>>>,
    pub color: Option<Seq<char>>,
    pub text_stroke: Option<Seq<char>>,
}

impl View for CommentSchema {
    type V = SchemaView;

    open spec fn view(&self) -> SchemaView {
        SchemaView {
            text: self.text.deep_view(),
            icon: self.icon.deep_view(),
            images: self.images.deep_view(),
            videos: self.videos.deep_view(),
            inline_images: self.inline_images.deep_view(),
            color: self.color.deep_view(),
            text_stroke: self.text_stroke.deep_view(),
        }
    }
}

/// An absent character field reads as the empty sequence.
pub open spec fn opt_chars(o: Option<Seq<char>>) -> Seq<char> {
    match o {
        Some(s) => s,
        None => Seq::empty(),
    }
}

/// An absent list field reads as the empty list.
pub open spec fn opt_list(o: Option<Seq<Seq<char>>>) -> Seq<Seq<char>> {
    match o {
        Some(s) => s,
        None => Seq::empty(),
    }
}

/// A present field contributes its value followed by its marker; an absent
/// field contributes nothing.
pub open spec fn field_block(o: Option<Seq<char>>, marker: Seq<char>) -> Seq<char> {
    match o {
        Some(s) => s + marker,
        None => Seq::empty(),
    }
}

/// The fixed-order icon, color and stroke blocks opening an encoding.
pub open spec fn style_prefix(c: SchemaView) -> Seq<char> {
    field_block(c.icon, icon_marker()) + field_block(c.color, color_marker()) + field_block(
        c.text_stroke,
        stroke_marker(),
    )
}

/// An inline image as substituted into the body, wrapped in its sentinels.
pub open spec fn wrapped_inline(img: Seq<char>) -> Seq<char> {
    inline_img_marker() + img + inline_img_marker()
}

/// Substitute the images into the first remaining `##INLINE##` placeholders,
/// one per image, left to right; surplus images are discarded and surplus
/// placeholders stay literal.
pub open spec fn substitute_inline(t: Seq<char>, imgs: Seq<Seq<char>>) -> Seq<char>
    decreases imgs.len(),
{
    if imgs.len() == 0 {
        t
    } else {
        substitute_inline(
            splice_first(t, inline_marker(), wrapped_inline(imgs[0])),
            imgs.drop_first(),
        )
    }
}

/// The body of an encoding: the text with its placeholders substituted.
pub open spec fn comment_body(c: SchemaView) -> Seq<char> {
    substitute_inline(opt_chars(c.text), opt_list(c.inline_images))
}

/// One marker-introduced entry per element, in order.
pub open spec fn tagged_entries(marker: Seq<char>, entries: Seq<Seq<char>>) -> Seq<char>
    decreases entries.len(),
{
    if entries.len() == 0 {
        Seq::empty()
    } else {
        marker + entries[0] + tagged_entries(marker, entries.drop_first())
    }
}

/// The schema a raw-text payload decodes to: the payload as `text`, every
/// other field absent.
pub open spec fn raw_text_view(t: Seq<char>) -> SchemaView {
    SchemaView {
        text: Some(t),
        icon: None,
        images: None,
        videos: None,
        inline_images: None,
        color: None,
        text_stroke: None,
    }
}

/// The complete encoding of a comment: style prefix, substituted body, then
/// the image and video sections.
pub open spec fn encoded_comment(c: SchemaView) -> Seq<char> {
    style_prefix(c) + comment_body(c) + tagged_entries(img_marker(), opt_list(c.images))
        + tagged_entries(video_marker(), opt_list(c.videos))
}

impl CommentSchema {
    /// Flatten the comment into the single marker-delimited string the
    /// renderer consumes.
    pub fn to_comment_text(&self) -> (r: String)
        ensures
            r@ == encoded_comment(self@),
    {
        let ghost c = self@;
        let mut comment = String::new();

        if let Some(icon) = &self.icon {
            comment.append(icon.as_str());
            comment.append("##ICON##");
        }
        proof {
            assert(comment@ =~= field_block(c.icon, icon_marker()));
        }
        let ghost after_icon = comment@;

        if let Some(color) = &self.color {
            comment.append(color.as_str());
            comment.append("##COLOR##");
        }
        proof {
            assert(comment@ =~= after_icon + field_block(c.color, color_marker()));
        }

        if let Some(text_stroke) = &self.text_stroke {
            comment.append(text_stroke.as_str());
            comment.append("##TEXT_STROKE##");
        }
        proof {
            assert(comment@ =~= style_prefix(c));
        }

        let mut text: String = match &self.text {
            Some(t) => t.clone(),
            None => String::new(),
        };
        proof {
            assert(text@ == opt_chars(c.text));
        }

        if let Some(inline_images) = &self.inline_images {
            let ghost imgs = inline_images.deep_view();
            let ghost t0 = text@;
            proof {
                assert(imgs.skip(0) =~= imgs);
            }
            let mut idx: usize = 0;
            while idx < inline_images.len()
                invariant
                    idx <= inline_images.len(),
                    imgs == inline_images.deep_view(),
                    substitute_inline(t0, imgs) == substitute_inline(
                        text@,
                        imgs.skip(idx as int),
                    ),
                decreases inline_images.len() - idx,
            {
                let mut wrapped = String::new();
                wrapped.append("##INLINE_IMG##");
                wrapped.append(inline_images[idx].as_str());
                wrapped.append("##INLINE_IMG##");
                proof {
                    assert(wrapped@ =~= wrapped_inline(imgs[idx as int]));
                }
                let replaced = replace_first(text.as_str(), "##INLINE##", wrapped.as_str());
                proof {
                    let rest = imgs.skip(idx as int);
                    assert(rest[0] == imgs[idx as int]);
                    assert(rest.drop_first() =~= imgs.skip(idx as int + 1));
                    assert(substitute_inline(text@, rest) == substitute_inline(
                        splice_first(text@, inline_marker(), wrapped_inline(rest[0])),
                        rest.drop_first(),
                    ));
                }
                text = replaced;
                idx += 1;
            }
            proof {
                assert(imgs.skip(inline_images.len() as int) =~= Seq::<Seq<char>>::empty());
                assert(text@ == substitute_inline(t0, imgs));
            }
        }
        proof {
            assert(text@ == comment_body(c));
        }

        comment.append(text.as_str());
        proof {
            assert(comment@ =~= style_prefix(c) + comment_body(c));
        }
        let ghost before_images = comment@;

        if let Some(images) = &self.images {
            let ghost entries = images.deep_view();
            proof {
                assert(entries.skip(0) =~= entries);
            }
            let mut idx: usize = 0;
            while idx < images.len()
                invariant
                    idx <= images.len(),
                    entries == images.deep_view(),
                    comment@ + tagged_entries(img_marker(), entries.skip(idx as int))
                        == before_images + tagged_entries(img_marker(), entries),
                decreases images.len() - idx,
            {
                let ghost at_entry = comment@;
                comment.append("##IMG##");
                comment.append(images[idx].as_str());
                proof {
                    let rest = entries.skip(idx as int);
                    assert(rest[0] == entries[idx as int]);
                    assert(rest.drop_first() =~= entries.skip(idx as int + 1));
                    assert(tagged_entries(img_marker(), rest) == img_marker() + rest[0]
                        + tagged_entries(img_marker(), rest.drop_first()));
                    assert(comment@ + tagged_entries(img_marker(), entries.skip(idx as int + 1))
                        =~= at_entry + tagged_entries(img_marker(), rest));
                }
                idx += 1;
            }
            proof {
                assert(entries.skip(images.len() as int) =~= Seq::<Seq<char>>::empty());
                assert(comment@ + Seq::<char>::empty() =~= comment@);
            }
        }
        proof {
            assert(comment@ == before_images + tagged_entries(img_marker(), opt_list(c.images)));
        }
        let ghost before_videos = comment@;

        if let Some(videos) = &self.videos {
            let ghost entries = videos.deep_view();
            proof {
                assert(entries.skip(0) =~= entries);
            }
            let mut idx: usize = 0;
            while idx < videos.len()
                invariant
                    idx <= videos.len(),
                    entries == videos.deep_view(),
                    comment@ + tagged_entries(video_marker(), entries.skip(idx as int))
                        == before_videos + tagged_entries(video_marker(), entries),
                decreases videos.len() - idx,
            {
                let ghost at_entry = comment@;
                comment.append("##VIDEO##");
                comment.append(videos[idx].as_str());
                proof {
                    let rest = entries.skip(idx as int);
                    assert(rest[0] == entries[idx as int]);
                    assert(rest.drop_first() =~= entries.skip(idx as int + 1));
                    assert(tagged_entries(video_marker(), rest) == video_marker() + rest[0]
                        + tagged_entries(video_marker(), rest.drop_first()));
                    assert(comment@ + tagged_entries(video_marker(), entries.skip(idx as int + 1))
                        =~= at_entry + tagged_entries(video_marker(), rest));
                }
                idx += 1;
            }
            proof {
                assert(entries.skip(videos.len() as int) =~= Seq::<Seq<char>>::empty());
                assert(comment@ + Seq::<char>::empty() =~= comment@);
            }
        }
        proof {
            assert(comment@ == before_videos + tagged_entries(video_marker(), opt_list(c.videos)));
            assert(comment@ =~= encoded_comment(c));
        }

        comment
    }
}

} // verus!
