use aozora_tools::render::{
    ensure_within_limit, oversize_html_notice, oversize_notice_message, preview_html,
    render_stats_line, to_fragment, wrap_standalone, MAX_RENDER_BYTES,
};

#[test]
fn standalone_wraps_the_fragment() {
    let wrapped = wrap_standalone("doc.afm", "<p>本文</p>");
    assert!(wrapped.starts_with("<!DOCTYPE html>"), "{wrapped}");
    assert!(wrapped.contains("writing-mode: vertical-rl"), "{wrapped}");
    assert!(wrapped.contains("<title>doc.afm</title>"), "{wrapped}");
    assert!(wrapped.contains("<p>本文</p>"), "fragment embedded: {wrapped}");
}

#[test]
fn within_limit_passes_and_over_limit_fails() {
    ensure_within_limit("ok.afm", MAX_RENDER_BYTES).expect("at the cap is fine");
    let err = ensure_within_limit("big.afm", MAX_RENDER_BYTES + 1).expect_err("over the cap must fail");
    assert!(err.contains("render limit"), "{err}");
}

#[test]
fn fragment_renders_ruby_markup() {
    let html = to_fragment("｜日本《にほん》");
    assert!(html.contains("<ruby"), "expected ruby HTML, got: {html}");
    assert!(html.contains("にほん"), "reading should appear: {html}");
}

#[test]
fn over_limit_message_is_exact() {
    let err = ensure_within_limit("big.afm", 40 * 1024 * 1024).unwrap_err();
    assert_eq!(err, "big.afm is 40 MiB, above the 16 MiB render limit");
}

#[test]
fn oversize_texts_name_both_sizes() {
    assert_eq!(
        oversize_html_notice(20 * 1024 * 1024),
        "<p>Preview paused — this document is 20 MiB, above the 16 MiB limit. Editing still works.</p>"
    );
    assert!(oversize_notice_message(17 * 1024 * 1024).starts_with("This document is 17 MiB, above the 16 MiB limit"));
}

#[test]
fn preview_renders_small_documents() {
    assert!(preview_html("｜青空《あおぞら》").contains("あおぞら"));
}

#[test]
fn render_stats_line_reports_sizes() {
    assert_eq!(
        render_stats_line("a.afm", 10, 20, 3),
        "aozora: rendered a.afm (10 bytes in, 20 bytes out) in 3ms"
    );
}
