use portus::logs::ansi::{sanitize_chunk, LogBatcher, TRIM_MARKER};
use portus::logs::render::{render_events, TermEvent};

#[test]
fn sgr_red_renders_as_allowed_span_without_raw_escape() {
    let html = sanitize_chunk(b"\x1b[31mred\x1b[0m");

    assert!(html.contains("<span class=\"ansi-fg-red\">red</span>"));
    assert!(!html.contains("\x1b[31m"));
}

#[test]
fn script_and_osc_hyperlink_render_as_inert_text() {
    let html = sanitize_chunk(
        b"<script>alert(1)</script>\x1b]8;;https://example.com\x07link\x1b]8;;\x07",
    );

    assert!(html.contains("&lt;script&gt;alert(1)&lt;/script&gt;"));
    assert!(html.contains("link"));
    assert!(!html.contains("<script>"));
    assert!(!html.contains("<a"));
    assert!(!html.contains("https://example.com"));
}

#[test]
fn carriage_return_rewrites_the_current_line() {
    let mut batcher = LogBatcher::new(20, 4096);

    batcher.push_bytes(b"progress 10%\rprogress 20%\n");

    let lines = batcher.snapshot();
    assert_eq!(lines.len(), 1);
    assert!(lines[0].html.contains("progress 20%"));
    assert!(!lines[0].html.contains("progress 10%"));
}

#[test]
fn flood_is_trimmed_to_bounded_lines_with_marker() {
    let mut batcher = LogBatcher::new(3, 4096);

    for i in 0..10 {
        batcher.push_bytes(format!("line {i}\n").as_bytes());
    }

    let lines = batcher.snapshot();
    assert_eq!(lines.len(), 3);
    assert_eq!(lines[0].html, TRIM_MARKER);
    assert!(lines[2].html.contains("line 9"));
}

#[test]
fn plain_text_is_escaped_exactly() {
    assert_eq!(sanitize_chunk(b"a<b & \"c\" 'd'>"), "a&lt;b &amp; &quot;c&quot; &#39;d&#39;&gt;");
}

#[test]
fn reset_closes_the_open_span_and_unknown_codes_are_ignored() {
    assert_eq!(
        sanitize_chunk(b"\x1b[1mbold\x1b[0m plain \x1b[7mstill plain"),
        "<span class=\"ansi-bold\">bold</span> plain still plain"
    );
}

#[test]
fn a_new_style_replaces_the_open_one_and_the_end_closes_it() {
    assert_eq!(
        sanitize_chunk(b"\x1b[32mgo\x1b[91mstop"),
        "<span class=\"ansi-fg-green\">go</span><span class=\"ansi-fg-bright-red\">stop</span>"
    );
}

#[test]
fn tab_becomes_four_spaces_and_other_controls_vanish() {
    assert_eq!(sanitize_chunk(b"a\tb\x07c"), "a    bc");
}

#[test]
fn rendered_events_follow_the_style_rules() {
    let events = vec![
        TermEvent::Csi { params: vec![vec![4]], ignore: false, action: 'm' },
        TermEvent::Print('x'),
        TermEvent::Csi { params: vec![], ignore: false, action: 'm' },
        TermEvent::Print('&'),
        TermEvent::Csi { params: vec![vec![31]], ignore: true, action: 'm' },
        TermEvent::Print('y'),
    ];
    assert_eq!(render_events(&events), "<span class=\"ansi-underline\">x</span>&amp;y");
}

#[test]
fn push_bytes_returns_only_the_new_lines() {
    let mut batcher = LogBatcher::new(10, 4096);

    let first = batcher.push_bytes(b"one\ntw");
    assert_eq!(first.lines.len(), 1);
    assert_eq!(first.lines[0].html, "one");

    let second = batcher.push_bytes(b"o\r\nthree\n");
    assert_eq!(second.lines.len(), 2);
    assert_eq!(second.lines[0].html, "two");
    assert_eq!(second.lines[1].html, "three");

    let all = batcher.snapshot();
    assert_eq!(all.len(), 3);
}

#[test]
fn unfinished_line_shows_last_in_the_snapshot() {
    let mut batcher = LogBatcher::new(5, 4096);

    let batch = batcher.push_bytes(b"done\npartial");

    assert_eq!(batch.lines.len(), 1);
    let lines = batcher.snapshot();
    assert_eq!(lines.len(), 2);
    assert_eq!(lines[0].html, "done");
    assert_eq!(lines[1].html, "partial");
}

#[test]
fn byte_limit_drops_old_lines_behind_the_marker() {
    let mut batcher = LogBatcher::new(100, 40);

    for i in 0..10 {
        batcher.push_bytes(format!("line number {i}\n").as_bytes());
    }

    let lines = batcher.snapshot();
    assert_eq!(lines[0].html, TRIM_MARKER);
    assert!(lines.last().unwrap().html.contains("line number 9"));
    assert!(lines.len() < 10);
}

#[test]
fn a_full_batcher_still_hands_out_each_new_line() {
    let mut batcher = LogBatcher::new(3, 4096);
    batcher.push_bytes(b"a\nb\nc\n");

    let out = batcher.push_bytes(b"d\n");

    assert_eq!(out.lines.len(), 1);
    assert_eq!(out.lines[0].html, "d");
    let more = batcher.push_bytes(b"e\nf\ng\n");
    let texts: Vec<&str> = more.lines.iter().map(|l| l.html.as_str()).collect();
    assert_eq!(texts, vec!["f", "g"]);
    assert!(!more.lines.iter().any(|l| l.html == TRIM_MARKER));
}

#[test]
fn kept_lines_are_the_latest_and_fit_the_byte_budget() {
    let mut batcher = LogBatcher::new(3, 4096);
    batcher.push_bytes(b"a\nb\n");
    batcher.push_bytes(b"c\nd\ne\n");
    let kept: Vec<String> = batcher.snapshot().into_iter().map(|l| l.html).collect();
    assert_eq!(kept, vec![TRIM_MARKER.to_string(), "d".to_string(), "e".to_string()]);

    let mut small = LogBatcher::new(10, 10);
    let out = small.push_bytes(b"aaaa\nbbbb\ncccc\n");
    let kept: Vec<String> = small.snapshot().into_iter().map(|l| l.html).collect();
    assert_eq!(kept, vec![TRIM_MARKER.to_string(), "bbbb".to_string(), "cccc".to_string()]);
    assert!(kept[1..].iter().map(|l| l.len()).sum::<usize>() <= 10);
    let batch: Vec<&str> = out.lines.iter().map(|l| l.html.as_str()).collect();
    assert_eq!(batch, vec!["bbbb", "cccc"]);
}

#[test]
fn sanitized_output_holds_no_control_characters() {
    let html = sanitize_chunk(b"a\x07b\x1b]8;;https://example.com\x07link\x1b]8;;\x07\x1bXc\x00d\r\x7f\xc2\x85e\tf");
    assert!(!html.chars().any(|c| c <= '\u{1f}' || ('\u{80}'..='\u{9f}').contains(&c)));
    assert!(!html.contains("https://example.com"));
    assert!(html.contains("link"));
}
