//! The stated guarantees of the encoding, proved once and for all inputs.

use crate::schema::{
    color_marker, comment_body, encoded_comment, field_block, icon_marker, img_marker,
    inline_img_marker, inline_marker, opt_chars, opt_list, raw_text_view, stroke_marker,
    style_prefix, substitute_inline, tagged_entries, video_marker, wrapped_inline, SchemaView,
};
use crate::text::{
    first_match, isolated_matches, lemma_count_past_prefix, lemma_count_skip_prefix,
    lemma_find_from_some, lemma_match_in_concat, match_at, occurrence_count, splice_first,
};
use vstd::math::min;
use vstd::prelude::*;

verus! {

/// A comment that carries only `text` encodes to exactly that text.
pub proof fn lemma_text_only_identity(c: SchemaView, t: Seq<char>)
    requires
        c.text == Some(t),
        c.icon is None,
        c.color is None,
        c.text_stroke is None,
        c.images is None,
        c.videos is None,
        c.inline_images is None,
    ensures
        encoded_comment(c) == t,
{
    assert(substitute_inline(opt_chars(c.text), opt_list(c.inline_images)) == t);
    assert(encoded_comment(c) =~= t);
}

/// A payload decoded as raw text encodes to itself: the fallback schema's
/// encoding is the payload unchanged.
pub proof fn lemma_raw_text_identity(t: Seq<char>)
    ensures
        encoded_comment(raw_text_view(t)) == t,
{
    lemma_text_only_identity(raw_text_view(t), t);
}

/// The encoding opens with the icon, color and stroke blocks, in that fixed
/// order, each block present exactly when its field is.
pub proof fn lemma_style_prefix_structure(c: SchemaView)
    ensures
        encoded_comment(c) == style_prefix(c) + (comment_body(c) + tagged_entries(
            img_marker(),
            opt_list(c.images),
        ) + tagged_entries(video_marker(), opt_list(c.videos))),
        style_prefix(c) == field_block(c.icon, icon_marker()) + field_block(
            c.color,
            color_marker(),
        ) + field_block(c.text_stroke, stroke_marker()),
        c.icon is None ==> field_block(c.icon, icon_marker()) == Seq::<char>::empty(),
        c.icon matches Some(s) ==> field_block(c.icon, icon_marker()) == s + icon_marker(),
        c.color is None ==> field_block(c.color, color_marker()) == Seq::<char>::empty(),
        c.color matches Some(s) ==> field_block(c.color, color_marker()) == s + color_marker(),
        c.text_stroke is None ==> field_block(c.text_stroke, stroke_marker())
            == Seq::<char>::empty(),
        c.text_stroke matches Some(s) ==> field_block(c.text_stroke, stroke_marker()) == s
            + stroke_marker(),
{
    assert(encoded_comment(c) =~= style_prefix(c) + (comment_body(c) + tagged_entries(
        img_marker(),
        opt_list(c.images),
    ) + tagged_entries(video_marker(), opt_list(c.videos))));
}

/// With no inline images the body is the text unchanged: every placeholder
/// stays literal.
pub proof fn lemma_substitute_no_images(t: Seq<char>)
    ensures
        substitute_inline(t, Seq::empty()) == t,
{
}

/// With no placeholder in the text, substitution changes nothing and every
/// inline image is discarded.
pub proof fn lemma_substitute_no_placeholder(t: Seq<char>, imgs: Seq<Seq<char>>)
    requires
        first_match(t, inline_marker()) is None,
    ensures
        substitute_inline(t, imgs) == t,
    decreases imgs.len(),
{
    if imgs.len() > 0 {
        assert(splice_first(t, inline_marker(), wrapped_inline(imgs[0])) == t);
        lemma_substitute_no_placeholder(t, imgs.drop_first());
    }
}

/// Each substitution step rewrites exactly the leftmost remaining
/// placeholder — the wrapped image stands where the first `##INLINE##`
/// stood — and hands the remaining images to the rewritten text.
pub proof fn lemma_substitute_step(t: Seq<char>, imgs: Seq<Seq<char>>, i: int)
    requires
        imgs.len() > 0,
        first_match(t, inline_marker()) == Some(i),
    ensures
        match_at(t, inline_marker(), i),
        forall|k: int| 0 <= k < i ==> !match_at(t, inline_marker(), k),
        substitute_inline(t, imgs) == substitute_inline(
            t.subrange(0, i) + wrapped_inline(imgs[0]) + t.subrange(
                i + inline_marker().len(),
                t.len() as int,
            ),
            imgs.drop_first(),
        ),
{
    lemma_find_from_some(t, inline_marker(), 0, i);
}

/// Substituting one image cannot plant a placeholder anywhere in the text up
/// to and including the wrapped image: not inside the sentinels, not across
/// their seams, provided the image holds no `#`, is not the bare word
/// `INLINE`, and the text's own placeholders do not overlap.
proof fn lemma_no_match_up_to_wrapped(t: Seq<char>, img: Seq<char>, i: int, k: int)
    requires
        first_match(t, inline_marker()) == Some(i),
        isolated_matches(t, inline_marker()),
        !img.contains('#'),
        img != "INLINE"@,
        0 <= k < i + wrapped_inline(img).len(),
    ensures
        !match_at(splice_first(t, inline_marker(), wrapped_inline(img)), inline_marker(), k),
{
    reveal_strlit("##INLINE##");
    reveal_strlit("##INLINE_IMG##");
    reveal_strlit("INLINE");
    let pat = inline_marker();
    let h = inline_img_marker();
    let w = wrapped_inline(img);
    let ll = img.len() as int;
    lemma_find_from_some(t, pat, 0, i);
    let pre = t.subrange(0, i);
    let post = t.subrange(i + 10, t.len() as int);
    let res = splice_first(t, pat, w);
    assert(pat.len() == 10);
    assert(h.len() == 14);
    assert(pat[0] == '#' && pat[1] == '#' && pat[2] == 'I' && pat[3] == 'N' && pat[4] == 'L'
        && pat[5] == 'I' && pat[6] == 'N' && pat[7] == 'E' && pat[8] == '#' && pat[9] == '#');
    assert(h[0] == '#' && h[1] == '#' && h[2] == 'I' && h[3] == 'N' && h[4] == 'L' && h[5] == 'I'
        && h[6] == 'N' && h[7] == 'E' && h[8] == '_' && h[9] == 'I' && h[10] == 'M' && h[11] == 'G'
        && h[12] == '#' && h[13] == '#');
    assert("INLINE"@.len() == 6 && "INLINE"@[0] == 'I' && "INLINE"@[1] == 'N' && "INLINE"@[2]
        == 'L' && "INLINE"@[3] == 'I' && "INLINE"@[4] == 'N' && "INLINE"@[5] == 'E');
    assert(res == pre + w + post);
    assert(res.len() == t.len() + w.len() - 10);
    assert forall|n: int| 0 <= n < 14 implies #[trigger] w[n] == h[n] by {}
    assert forall|n: int| 14 <= n < 14 + ll implies #[trigger] w[n] == img[n - 14] by {}
    assert forall|n: int| 14 + ll <= n < 28 + ll implies #[trigger] w[n] == h[n - 14 - ll] by {}
    assert forall|n: int| 0 <= n < i implies #[trigger] res[n] == t[n] by {}
    assert forall|n: int| i <= n < i + w.len() implies #[trigger] res[n] == w[n - i] by {}
    assert forall|n: int| i + w.len() <= n < res.len() implies #[trigger] res[n] == t[
        n - w.len() + 10
    ] by {}
    assert forall|x: int| 0 <= x < 10 implies t[i + x] == pat[x] by {
        assert(t.subrange(i, i + 10)[x] == t[i + x]);
    }
    if match_at(res, pat, k) {
        assert forall|x: int| 0 <= x < 10 implies res[k + x] == pat[x] by {
            assert(res.subrange(k, k + 10)[x] == res[k + x]);
        }
        if k + 10 <= i {
            assert(t.subrange(k, k + 10) =~= pat);
            assert(match_at(t, pat, k));
            assert(false);
        } else if k < i {
            let j = k + 10 - i;
            if j <= 8 {
                assert forall|x: int| 0 <= x < 10 implies t[k + x] == pat[x] by {
                    if k + x < i {
                        assert(res[k + x] == t[k + x]);
                    } else {
                        let y = k + x - i;
                        assert(res[k + x] == w[y]);
                        assert(w[y] == h[y]);
                        assert(h[y] == pat[y]);
                        assert(t[k + x] == t[i + y]);
                    }
                }
                assert(t.subrange(k, k + 10) =~= pat);
                assert(match_at(t, pat, k));
                assert(false);
            } else {
                assert(res[k + 9] == pat[9]);
                assert(res[k + 9] == w[8]);
                assert(w[8] == h[8]);
                assert(false);
            }
        } else {
            let d = k - i;
            if d < 14 {
                if d == 0 {
                    assert(res[k + 8] == w[8]);
                    assert(false);
                } else if d == 1 {
                    assert(res[k + 1] == w[2]);
                    assert(false);
                } else if d <= 11 {
                    assert(res[k] == w[d]);
                    assert(false);
                } else if d == 12 {
                    if ll >= 7 {
                        assert(res[k + 8] == w[20]);
                        assert(w[20] == img[6]);
                        assert(img.contains('#')) by {
                            assert(img[6] == '#');
                        }
                        assert(false);
                    } else if ll == 6 {
                        assert forall|x: int| 0 <= x < 6 implies img[x] == "INLINE"@[x] by {
                            assert(res[k + 2 + x] == w[14 + x]);
                            assert(w[14 + x] == img[x]);
                        }
                        assert(img =~= "INLINE"@);
                        assert(false);
                    } else {
                        assert(res[k + 2 + ll] == w[14 + ll]);
                        assert(w[14 + ll] == h[0]);
                        assert(false);
                    }
                } else {
                    if ll == 0 {
                        assert(res[k + 2] == w[15]);
                        assert(w[15] == h[1]);
                        assert(false);
                    } else {
                        assert(res[k + 1] == pat[1]);
                        assert(res[k + 1] == w[14]);
                        assert(w[14] == img[0]);
                        assert(img.contains('#')) by {
                            assert(img[0] == '#');
                        }
                        assert(false);
                    }
                }
            } else if d < 14 + ll {
                assert(res[k] == w[d]);
                assert(w[d] == img[d - 14]);
                assert(img.contains('#')) by {
                    assert(img[d - 14] == '#');
                }
                assert(false);
            } else {
                let d2 = d - 14 - ll;
                if d2 == 0 {
                    assert(res[k + 8] == w[d + 8]);
                    assert(w[d + 8] == h[8]);
                    assert(false);
                } else if d2 == 1 {
                    assert(res[k + 1] == w[d + 1]);
                    assert(w[d + 1] == h[2]);
                    assert(false);
                } else if d2 <= 11 {
                    assert(res[k] == w[d]);
                    assert(w[d] == h[d2]);
                    assert(false);
                } else if d2 == 12 {
                    assert forall|y: int| 0 <= y < 10 implies t[i + 8 + y] == pat[y] by {
                        if y >= 2 {
                            assert(res[k + y] == post[y - 2]);
                            assert(post[y - 2] == t[i + 8 + y]);
                        }
                    }
                    assert(t.subrange(i + 8, i + 18) =~= pat);
                    assert(match_at(t, pat, i + 8));
                    assert(false);
                } else {
                    assert forall|y: int| 0 <= y < 10 implies t[i + 9 + y] == pat[y] by {
                        if y >= 1 {
                            assert(res[k + y] == post[y - 1]);
                            assert(post[y - 1] == t[i + 9 + y]);
                        }
                    }
                    assert(t.subrange(i + 9, i + 19) =~= pat);
                    assert(match_at(t, pat, i + 9));
                    assert(false);
                }
            }
        }
    }
}

/// Substituting the leftmost placeholder consumes exactly that one
/// occurrence: the spliced text holds one placeholder fewer, and its
/// placeholders still do not overlap.
proof fn lemma_splice_step_count(t: Seq<char>, img: Seq<char>, i: int)
    requires
        first_match(t, inline_marker()) == Some(i),
        isolated_matches(t, inline_marker()),
        !img.contains('#'),
        img != "INLINE"@,
    ensures
        occurrence_count(splice_first(t, inline_marker(), wrapped_inline(img)), inline_marker())
            + 1 == occurrence_count(t, inline_marker()),
        isolated_matches(
            splice_first(t, inline_marker(), wrapped_inline(img)),
            inline_marker(),
        ),
{
    reveal_strlit("##INLINE##");
    let pat = inline_marker();
    let w = wrapped_inline(img);
    lemma_find_from_some(t, pat, 0, i);
    let pre = t.subrange(0, i);
    let post = t.subrange(i + 10, t.len() as int);
    let res = splice_first(t, pat, w);
    let head = pre + w;
    assert(res == pre + w + post);
    assert(res =~= head + post);
    assert forall|k: int| 0 <= k < head.len() implies !match_at(head + post, pat, k) by {
        lemma_no_match_up_to_wrapped(t, img, i, k);
    }
    lemma_count_past_prefix(head, post, pat);
    assert(t.subrange(i + pat.len(), t.len() as int) == post);
    assert(occurrence_count(t, pat) == 1 + occurrence_count(post, pat));
    assert forall|s: int| 0 <= s implies match_at(post, pat, s) == match_at(
        t,
        pat,
        i + 10 + s,
    ) by {
        if s + 10 <= post.len() {
            assert(post.subrange(s, s + 10) =~= t.subrange(i + 10 + s, i + 10 + s + 10));
        }
    }
    assert forall|r1: int, r2: int|
        match_at(res, pat, r1) && match_at(res, pat, r2) && r1 < r2 implies r1 + pat.len()
        <= r2 by {
        assert(head.len() <= r1);
        assert(head.len() <= r2);
        lemma_match_in_concat(head, post, pat, r1 - head.len());
        lemma_match_in_concat(head, post, pat, r2 - head.len());
        assert(match_at(t, pat, i + 10 + (r1 - head.len())));
        assert(match_at(t, pat, i + 10 + (r2 - head.len())));
    }
}

/// Placeholder accounting for the whole substitution pass: of the `m`
/// placeholders in the text, the first `min(k, m)` are consumed, one per
/// image, and exactly `m - min(k, m)` stay literal in the body. This holds
/// when the text's placeholders do not overlap and no image can recreate a
/// placeholder: none holds `#` and none is the bare word `INLINE`.
pub proof fn lemma_substitution_placeholder_count(t: Seq<char>, imgs: Seq<Seq<char>>)
    requires
        isolated_matches(t, inline_marker()),
        char_free(imgs, '#'),
        forall|j: int| 0 <= j < imgs.len() ==> (#[trigger] imgs[j]) != "INLINE"@,
    ensures
        occurrence_count(substitute_inline(t, imgs), inline_marker()) + min(
            imgs.len() as int,
            occurrence_count(t, inline_marker()) as int,
        ) == occurrence_count(t, inline_marker()),
    decreases imgs.len(),
{
    reveal_strlit("##INLINE##");
    let pat = inline_marker();
    if imgs.len() == 0 {
    } else {
        match first_match(t, pat) {
            None => {
                lemma_substitute_no_placeholder(t, imgs);
                assert(occurrence_count(t, pat) == 0);
            },
            Some(i) => {
                assert(!imgs[0].contains('#'));
                assert(imgs[0] != "INLINE"@);
                lemma_splice_step_count(t, imgs[0], i);
                let t2 = splice_first(t, pat, wrapped_inline(imgs[0]));
                assert(substitute_inline(t, imgs) == substitute_inline(t2, imgs.drop_first()));
                assert(char_free(imgs.drop_first(), '#')) by {
                    assert forall|j: int|
                        0 <= j < imgs.drop_first().len() implies !(#[trigger] imgs.drop_first()[j])
                        .contains('#') by {
                        assert(imgs.drop_first()[j] == imgs[j + 1]);
                    }
                }
                assert forall|j: int|
                    0 <= j < imgs.drop_first().len() implies (#[trigger] imgs.drop_first()[j])
                    != "INLINE"@ by {
                    assert(imgs.drop_first()[j] == imgs[j + 1]);
                }
                lemma_substitution_placeholder_count(t2, imgs.drop_first());
            },
        }
    }
}

/// No entry of the list holds the character.
pub open spec fn char_free(entries: Seq<Seq<char>>, ch: char) -> bool {
    forall|i: int| 0 <= i < entries.len() ==> !(#[trigger] entries[i]).contains(ch)
}

proof fn lemma_tagged_count(marker: Seq<char>, entries: Seq<Seq<char>>)
    requires
        marker.len() > 0,
        marker[0] == '#',
        char_free(entries, '#'),
    ensures
        occurrence_count(tagged_entries(marker, entries), marker) == entries.len(),
    decreases entries.len(),
{
    if entries.len() == 0 {
    } else {
        let e0 = entries[0];
        let rest = tagged_entries(marker, entries.drop_first());
        let t = marker + e0 + rest;
        assert(tagged_entries(marker, entries) == t);
        assert(t.subrange(0, marker.len() as int) =~= marker);
        assert(first_match(t, marker) == Some(0int));
        assert(t.subrange(marker.len() as int, t.len() as int) =~= e0 + rest);
        lemma_count_skip_prefix(e0, rest, marker);
        assert(char_free(entries.drop_first(), '#')) by {
            assert forall|i: int|
                0 <= i < entries.drop_first().len() implies !(#[trigger] entries.drop_first()[i])
                .contains('#') by {
                assert(entries.drop_first()[i] == entries[i + 1]);
            }
        }
        lemma_tagged_count(marker, entries.drop_first());
    }
}

/// The media sections close the encoding — images before videos, each entry
/// introduced by its marker — and, for entries free of `#`, each section
/// holds exactly one marker occurrence per entry. Markers that a sender
/// smuggles into other fields are an acknowledged trust boundary and are not
/// counted here.
pub proof fn lemma_media_sections(c: SchemaView)
    requires
        char_free(opt_list(c.images), '#'),
        char_free(opt_list(c.videos), '#'),
    ensures
        encoded_comment(c) == (style_prefix(c) + comment_body(c)) + tagged_entries(
            img_marker(),
            opt_list(c.images),
        ) + tagged_entries(video_marker(), opt_list(c.videos)),
        occurrence_count(tagged_entries(img_marker(), opt_list(c.images)), img_marker())
            == opt_list(c.images).len(),
        occurrence_count(tagged_entries(video_marker(), opt_list(c.videos)), video_marker())
            == opt_list(c.videos).len(),
{
    reveal_strlit("##IMG##");
    reveal_strlit("##VIDEO##");
    assert(img_marker().len() == 7 && img_marker()[0] == '#');
    assert(video_marker().len() == 9 && video_marker()[0] == '#');
    lemma_tagged_count(img_marker(), opt_list(c.images));
    lemma_tagged_count(video_marker(), opt_list(c.videos));
    assert(encoded_comment(c) =~= (style_prefix(c) + comment_body(c)) + tagged_entries(
        img_marker(),
        opt_list(c.images),
    ) + tagged_entries(video_marker(), opt_list(c.videos)));
}

} // verus!
