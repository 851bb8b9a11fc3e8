use analytics_bot::segment::segment;

#[test]
fn short_text_is_one_chunk() {
    let chunks = segment("a\nb", 4000, 4096);
    assert_eq!(chunks, vec!["a\nb".to_string()]);
}

#[test]
fn long_report_is_split_under_the_soft_limit() {
    let line = "x".repeat(99);
    let text = format!("{}x", vec![line.clone(); 90].join("\n"));
    assert_eq!(text.len(), 9000);
    let chunks = segment(&text, 4000, 4096);
    assert!(chunks.len() >= 3);
    for c in &chunks {
        assert!(c.len() <= 4000);
    }
    assert_eq!(chunks.join("\n"), text);
}

#[test]
fn multibyte_report_keeps_every_character() {
    let line = "щ".repeat(60);
    let text = vec![line.clone(); 100].join("\n");
    let chunks = segment(&text, 4000, 4096);
    assert!(chunks.len() >= 3);
    for c in &chunks {
        assert!(c.len() <= 4000);
    }
    assert_eq!(chunks.join("\n"), text);
}

#[test]
fn overlong_line_stands_alone() {
    let text = format!("a\n{}\nb", "y".repeat(50));
    let chunks = segment(&text, 10, 20);
    assert_eq!(chunks, vec!["a".to_string(), "y".repeat(50), "b".to_string()]);
}

#[test]
fn carriage_returns_end_lines() {
    let chunks = segment("ab\r\ncd\r\nef\n", 6, 5);
    assert_eq!(chunks, vec!["ab\ncd".to_string(), "ef".to_string()]);
}

#[test]
fn blank_line_at_chunk_start_is_dropped() {
    let text = "aaaa\n\nbbbb\n\n\ncccc";
    let chunks = segment(text, 5, 4);
    assert_eq!(
        chunks,
        vec!["aaaa\n".to_string(), "bbbb\n".to_string(), "cccc".to_string()]
    );
}

#[test]
fn blank_line_between_long_lines_gives_no_empty_chunk() {
    let a = "a".repeat(4000);
    let b = "b".repeat(4100);
    let text = format!("{}\n\n{}", a, b);
    let chunks = segment(&text, 4000, 4096);
    assert_eq!(chunks, vec![a, b]);
    for c in &chunks {
        assert!(!c.is_empty());
    }
}

#[test]
fn leading_blank_lines_are_dropped() {
    let text = format!("\n\n{}", "z".repeat(30));
    let chunks = segment(&text, 10, 20);
    assert_eq!(chunks, vec!["z".repeat(30)]);
}
