use danmaku_bridge::schema::CommentSchema;

fn empty_schema() -> CommentSchema {
    CommentSchema {
        text: None,
        icon: None,
        images: None,
        videos: None,
        inline_images: None,
        color: None,
        text_stroke: None,
    }
}

#[test]
fn text_only_is_identity() {
    let c = CommentSchema { text: Some("hello world".to_string()), ..empty_schema() };
    assert_eq!(c.to_comment_text(), "hello world");
}

#[test]
fn empty_schema_encodes_empty() {
    assert_eq!(empty_schema().to_comment_text(), "");
}

#[test]
fn icon_block_precedes_text() {
    let c = CommentSchema {
        text: Some("hi".to_string()),
        icon: Some("a.png".to_string()),
        ..empty_schema()
    };
    assert_eq!(c.to_comment_text(), "a.png##ICON##hi");
}

#[test]
fn prefix_blocks_in_fixed_order() {
    let c = CommentSchema {
        text: Some("t".to_string()),
        icon: Some("i.png".to_string()),
        color: Some("red".to_string()),
        text_stroke: Some("1px blue".to_string()),
        ..empty_schema()
    };
    let encoded = c.to_comment_text();
    assert_eq!(encoded, "i.png##ICON##red##COLOR##1px blue##TEXT_STROKE##t");
    assert!(encoded.starts_with("i.png##ICON##"));
}

#[test]
fn inline_images_fill_placeholders_in_order() {
    let c = CommentSchema {
        text: Some("pre ##INLINE## mid ##INLINE## post".to_string()),
        inline_images: Some(vec!["x".to_string(), "y".to_string()]),
        ..empty_schema()
    };
    assert_eq!(
        c.to_comment_text(),
        "pre ##INLINE_IMG##x##INLINE_IMG## mid ##INLINE_IMG##y##INLINE_IMG## post"
    );
}

#[test]
fn surplus_placeholders_stay_literal() {
    let c = CommentSchema {
        text: Some("a ##INLINE## b ##INLINE## c".to_string()),
        inline_images: Some(vec!["x".to_string()]),
        ..empty_schema()
    };
    assert_eq!(c.to_comment_text(), "a ##INLINE_IMG##x##INLINE_IMG## b ##INLINE## c");
}

#[test]
fn surplus_inline_images_are_discarded() {
    let c = CommentSchema {
        inline_images: Some(vec!["x".to_string()]),
        ..empty_schema()
    };
    assert_eq!(c.to_comment_text(), "");
}

#[test]
fn full_schema_flattens_in_order() {
    let c = CommentSchema {
        text: Some("t".to_string()),
        color: Some("#fff".to_string()),
        text_stroke: Some("1px #000".to_string()),
        images: Some(vec!["i1".to_string(), "i2".to_string()]),
        videos: Some(vec!["v1".to_string()]),
        ..empty_schema()
    };
    assert_eq!(
        c.to_comment_text(),
        "#fff##COLOR##1px #000##TEXT_STROKE##t##IMG##i1##IMG##i2##VIDEO##v1"
    );
}

#[test]
fn media_marker_counts_match_entry_counts() {
    let c = CommentSchema {
        text: Some("body".to_string()),
        images: Some(vec!["i1".to_string(), "i2".to_string(), "i3".to_string()]),
        videos: Some(vec!["v1".to_string(), "v2".to_string()]),
        ..empty_schema()
    };
    let encoded = c.to_comment_text();
    assert_eq!(encoded.matches("##IMG##").count(), 3);
    assert_eq!(encoded.matches("##VIDEO##").count(), 2);
    let imgs_at = encoded.find("##IMG##").unwrap();
    let vids_at = encoded.find("##VIDEO##").unwrap();
    assert!(imgs_at < vids_at);
    assert!(encoded.starts_with("body"));
}

#[test]
fn images_follow_body_videos_follow_images() {
    let c = CommentSchema {
        text: Some("b".to_string()),
        images: Some(vec!["i".to_string()]),
        videos: Some(vec!["v".to_string()]),
        ..empty_schema()
    };
    assert_eq!(c.to_comment_text(), "b##IMG##i##VIDEO##v");
}

#[test]
fn placeholder_counts_add_up() {
    // Three placeholders, two images: one placeholder stays literal and two
    // wrapped blocks appear.
    let c = CommentSchema {
        text: Some("##INLINE##-##INLINE##-##INLINE##".to_string()),
        inline_images: Some(vec!["u".to_string(), "v".to_string()]),
        ..empty_schema()
    };
    let encoded = c.to_comment_text();
    assert_eq!(
        encoded,
        "##INLINE_IMG##u##INLINE_IMG##-##INLINE_IMG##v##INLINE_IMG##-##INLINE##"
    );
    assert_eq!(encoded.matches("##INLINE##").count(), 1);
    assert_eq!(encoded.matches("##INLINE_IMG##").count(), 4);
}

#[test]
fn multibyte_text_survives_encoding() {
    let c = CommentSchema {
        text: Some("こんにちは ##INLINE## 世界".to_string()),
        inline_images: Some(vec!["絵.png".to_string()]),
        ..empty_schema()
    };
    assert_eq!(c.to_comment_text(), "こんにちは ##INLINE_IMG##絵.png##INLINE_IMG## 世界");
}
