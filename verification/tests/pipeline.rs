use danmaku_bridge::dispatch::{build_event, OnCommentReceivedPayload};
use danmaku_bridge::ingest::{dispatched_text, payload_text, raw_text_schema};
use danmaku_bridge::placement::{draw_offset_top_ppm, offset_top_ratio_ppm};
use danmaku_bridge::schema::CommentSchema;

#[test]
fn payload_text_decodes_utf8() {
    let bytes: Vec<u8> = "hello world".as_bytes().to_vec();
    assert_eq!(payload_text(&bytes), "hello world");
}

#[test]
fn payload_text_replaces_invalid_sequences() {
    let bytes: Vec<u8> = vec![0x68, 0x69, 0xFF];
    assert_eq!(payload_text(&bytes), "hi\u{FFFD}");
}

#[test]
fn raw_text_schema_keeps_only_text() {
    let c = raw_text_schema("not json".to_string());
    assert_eq!(c.text.as_deref(), Some("not json"));
    assert!(c.icon.is_none());
    assert!(c.images.is_none());
    assert!(c.videos.is_none());
    assert!(c.inline_images.is_none());
    assert!(c.color.is_none());
    assert!(c.text_stroke.is_none());
}

#[test]
fn raw_payload_dispatches_unchanged() {
    assert_eq!(dispatched_text(None, "[1, 2]".to_string()), "[1, 2]");
}

#[test]
fn raw_payload_equals_text_only_encoding() {
    let raw = "plain ##INLINE## message";
    let by_fallback = raw_text_schema(raw.to_string()).to_comment_text();
    assert_eq!(dispatched_text(None, raw.to_string()), by_fallback);
}

#[test]
fn non_object_json_falls_back_to_raw() {
    let payload = "[1, 2, 3]";
    let is_object = serde_json::from_str::<serde_json::Value>(payload)
        .map(|v| v.is_object())
        .unwrap_or(false);
    assert!(!is_object);
    // The dispatched text is the payload itself, which equals the encoding
    // of the text-only fallback schema.
    assert_eq!(dispatched_text(None, payload.to_string()), payload);
    assert_eq!(raw_text_schema(payload.to_string()).to_comment_text(), payload);
}

#[test]
fn parsed_payload_dispatches_encoded() {
    let c = CommentSchema {
        text: Some("hi".to_string()),
        icon: Some("a.png".to_string()),
        images: None,
        videos: None,
        inline_images: None,
        color: None,
        text_stroke: None,
    };
    assert_eq!(dispatched_text(Some(c), "ignored".to_string()), "a.png##ICON##hi");
}

#[test]
fn placement_scales_exactly() {
    assert_eq!(offset_top_ratio_ppm(0), 0);
    assert_eq!(offset_top_ratio_ppm(u32::MAX), 899_999);
    assert_eq!(offset_top_ratio_ppm(1 << 31), 450_000);
}

#[test]
fn placement_stays_below_nine_tenths() {
    for _ in 0..1000 {
        assert!(draw_offset_top_ppm() < 900_000);
    }
}

#[test]
fn envelope_carries_constants() {
    let p = OnCommentReceivedPayload::assemble("txt".to_string(), 123_456);
    assert_eq!(p.comment.id, 0);
    assert_eq!(p.comment.text, "txt");
    assert_eq!(p.comment.offset_top_ratio_ppm, 123_456);
    assert_eq!(p.renderer_info.window_index, 0);
    assert_eq!(p.renderer_info.num_displays, 1);
    assert!(p.renderer_info.is_single_window);
}

#[test]
fn build_event_encodes_and_places() {
    let c = CommentSchema {
        text: Some("hi".to_string()),
        icon: None,
        images: None,
        videos: None,
        inline_images: None,
        color: None,
        text_stroke: None,
    };
    let event = build_event(Some(c), "raw".to_string());
    assert_eq!(event.comment.text, "hi");
    assert_eq!(event.comment.id, 0);
    assert!(event.comment.offset_top_ratio_ppm < 900_000);
    assert_eq!(event.renderer_info.window_index, 0);
    assert_eq!(event.renderer_info.num_displays, 1);
    assert!(event.renderer_info.is_single_window);
}

#[test]
fn build_event_keeps_raw_payload() {
    let event = build_event(None, "just text".to_string());
    assert_eq!(event.comment.text, "just text");
}
