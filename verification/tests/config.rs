use danmaku_bridge::config;

#[test]
fn durations_are_five_seconds() {
    assert_eq!(config::request_duration(), 5000);
    assert_eq!(config::request_default_duration(), 5000);
}

#[test]
fn text_color_style_literal() {
    assert_eq!(config::request_text_color_style(), "rgba(255, 255, 255, 1.0)");
}

#[test]
fn text_stroke_style_literal() {
    assert_eq!(config::request_text_stroke_style(), "2px rgba(0, 0, 0, 1.0)");
}

#[test]
fn feature_toggles_all_enabled() {
    assert!(config::request_newline_enabled());
    assert!(config::request_icon_enabled());
    assert!(config::request_inline_img_enabled());
    assert!(config::request_img_enabled());
    assert!(config::request_video_enabled());
    assert!(config::request_round_icon_enabled());
}
