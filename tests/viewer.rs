use mess::view::lines_of;
use mess::{
    active_line_count, collapse_blank_lines, is_markdown_path, markdown_events, render_events,
    tokenize_line, visible_window, Action, AppState, Block, MdEvent, Outcome, Style, ViewMode,
};

fn segs(line: &str, styled: bool) -> Vec<(String, Style)> {
    tokenize_line(line, styled)
        .into_iter()
        .map(|g| (g.text, g.style))
        .collect()
}

fn seg(t: &str, s: Style) -> (String, Style) {
    (t.to_string(), s)
}

fn md_state(content: &str) -> AppState {
    AppState::new("notes.md".to_string(), content.to_string())
}

fn plain_state(content: &str) -> AppState {
    AppState::new("notes.txt".to_string(), content.to_string())
}

#[test]
fn unterminated_bold_is_plain() {
    let line = "a **bold without close";
    let got = segs(line, true);
    assert!(got.iter().all(|(_, s)| *s == Style::Plain));
    let joined: String = got.iter().map(|(t, _)| t.as_str()).collect();
    assert_eq!(joined, line);
    assert_eq!(got, vec![seg("a **bold without close", Style::Plain)]);
}

#[test]
fn lone_opening_marker_is_whole_plain_line() {
    assert_eq!(segs("**bold without close", true), vec![seg("**bold without close", Style::Plain)]);
    assert_eq!(segs("`code", true), vec![seg("`code", Style::Plain)]);
}

#[test]
fn paired_bold() {
    assert_eq!(segs("**hi** there", true), vec![seg("hi", Style::Bold), seg(" there", Style::Plain)]);
}

#[test]
fn header_line() {
    assert_eq!(segs("## Title", true), vec![seg("Title", Style::HeaderBold)]);
}

#[test]
fn hash_without_space_is_plain() {
    assert_eq!(segs("#tag rest", true), vec![seg("#tag rest", Style::Plain)]);
    assert_eq!(segs("x #y", true), vec![seg("x #y", Style::Plain)]);
}

#[test]
fn italic_and_code() {
    assert_eq!(
        segs("an *it* and `c` end", true),
        vec![
            seg("an ", Style::Plain),
            seg("it", Style::Italic),
            seg(" and ", Style::Plain),
            seg("c", Style::Code),
            seg(" end", Style::Plain),
        ]
    );
}

#[test]
fn empty_bold_pair() {
    assert_eq!(segs("****x", true), vec![seg("", Style::Bold), seg("x", Style::Plain)]);
}

#[test]
fn empty_line_has_no_segments() {
    assert!(segs("", true).is_empty());
    assert!(segs("", false).is_empty());
}

#[test]
fn unstyled_line_is_one_plain_segment() {
    assert_eq!(segs("**b** `c` # d", false), vec![seg("**b** `c` # d", Style::Plain)]);
}

#[test]
fn round_trip_without_markers() {
    let line = "plain words, nothing else: é ü 1 2 3";
    assert_eq!(segs(line, true), vec![seg(line, Style::Plain)]);
}

#[test]
fn round_trip_removes_paired_delimiters_only() {
    let got = segs("x **b** *i* `c` **open", true);
    let joined: String = got.iter().map(|(t, _)| t.as_str()).collect();
    assert_eq!(joined, "x b i c **open");
    assert_eq!(got.last().unwrap(), &seg(" **open", Style::Plain));
}

#[test]
fn unclosed_marker_after_styled_segment_stays_separate() {
    assert_eq!(
        segs("**b**`x", true),
        vec![seg("b", Style::Bold), seg("`x", Style::Plain)]
    );
    assert_eq!(
        segs("a *b* c *d", true),
        vec![seg("a ", Style::Plain), seg("b", Style::Italic), seg(" c *d", Style::Plain)]
    );
}

#[test]
fn collapse_reduces_runs_to_one_blank_line() {
    let s: Vec<char> = "a\n\n\n\nb\n\n\nc\nd".chars().collect();
    let once = collapse_blank_lines(&s);
    assert_eq!(once.iter().collect::<String>(), "a\n\nb\n\nc\nd");
}

#[test]
fn collapse_is_idempotent() {
    let s: Vec<char> = "\n\n\n\nx\n\n\n\n\ny\n".chars().collect();
    let once = collapse_blank_lines(&s);
    let twice = collapse_blank_lines(&once);
    assert_eq!(once, twice);
}

#[test]
fn four_block_boundaries_leave_one_blank_line() {
    let events = vec![
        MdEvent::Start(Block::Paragraph),
        MdEvent::Text("a".to_string()),
        MdEvent::End(Block::Paragraph),
        MdEvent::Start(Block::Paragraph),
        MdEvent::End(Block::Paragraph),
        MdEvent::Start(Block::Paragraph),
        MdEvent::End(Block::Paragraph),
        MdEvent::SoftBreak,
        MdEvent::SoftBreak,
        MdEvent::Text("b".to_string()),
    ];
    let out = render_events(&events);
    assert_eq!(out, "a\n\nb");
    assert!(!out.contains("\n\n\n"));
}

#[test]
fn render_events_markers() {
    let events = vec![
        MdEvent::Start(Block::Heading(2)),
        MdEvent::Text("T".to_string()),
        MdEvent::End(Block::Heading(2)),
        MdEvent::Start(Block::List),
        MdEvent::Start(Block::Item),
        MdEvent::Start(Block::Emphasis),
        MdEvent::Text("e".to_string()),
        MdEvent::End(Block::Emphasis),
        MdEvent::End(Block::Item),
        MdEvent::End(Block::List),
        MdEvent::Start(Block::BlockQuote),
        MdEvent::Code("k".to_string()),
        MdEvent::End(Block::BlockQuote),
        MdEvent::Rule,
        MdEvent::Start(Block::CodeBlock),
        MdEvent::Text("let x;".to_string()),
        MdEvent::End(Block::CodeBlock),
        MdEvent::Other,
    ];
    assert_eq!(
        render_events(&events),
        "## T\n\n• *e*\n\n> `k`\n\n---\n\n```\nlet x;\n```"
    );
}

#[test]
fn render_markdown_heading_and_bold() {
    let out = AppState::render_markdown("# Title\n\nSome **bold** text");
    assert_eq!(out, "# Title\nSome **bold** text");
}

#[test]
fn render_markdown_trims_and_collapses() {
    let out = AppState::render_markdown("\n\n   para one\n\n\n\n\n---\n\n\n\npara two\n\n");
    assert_eq!(out, "para one\n\n---\npara two");
    assert!(!out.contains("\n\n\n"));
}

#[test]
fn markdown_events_of_paragraph() {
    let events = markdown_events("*x*");
    assert_eq!(events.len(), 5);
    assert!(matches!(events[0], MdEvent::Start(Block::Paragraph)));
    assert!(matches!(events[1], MdEvent::Start(Block::Emphasis)));
    assert!(matches!(&events[2], MdEvent::Text(t) if t == "x"));
    assert!(matches!(events[3], MdEvent::End(Block::Emphasis)));
    assert!(matches!(events[4], MdEvent::End(Block::Paragraph)));
}

#[test]
fn markdown_path_detection() {
    assert!(is_markdown_path("a/b/readme.md"));
    assert!(is_markdown_path("x.markdown"));
    assert!(!is_markdown_path("notes.txt"));
    assert!(!is_markdown_path("md"));
    assert!(!is_markdown_path("file.mdx"));
}

#[test]
fn new_markdown_state() {
    let s = md_state("# H\n\ntext");
    assert!(s.is_markdown);
    assert_eq!(s.view_mode, ViewMode::Rendered);
    assert_eq!(s.scroll_offset, 0);
    assert_eq!(s.rendered_content, "# H\ntext");
    assert_eq!(s.content, "# H\n\ntext");
}

#[test]
fn new_plain_state() {
    let s = plain_state("**a**\n");
    assert!(!s.is_markdown);
    assert_eq!(s.view_mode, ViewMode::Source);
    assert_eq!(s.rendered_content, s.content);
}

#[test]
fn scroll_down_saturates() {
    let mut s = plain_state("x");
    for &(offset, n, count) in &[(0usize, 1usize, 1usize), (3, 10, 5), (0, usize::MAX, 7), (9, 0, 4), (2, 2, 5)] {
        s.scroll_offset = offset;
        s.scroll_down(n, count);
        assert!(s.scroll_offset < count);
    }
    s.scroll_offset = 2;
    s.scroll_down(2, 5);
    assert_eq!(s.scroll_offset, 4);
    s.scroll_offset = 2;
    s.scroll_down(3, 5);
    assert_eq!(s.scroll_offset, 4);
    s.scroll_offset = 3;
    s.scroll_down(1, 0);
    assert_eq!(s.scroll_offset, 0);
}

#[test]
fn scroll_up_saturates() {
    let mut s = plain_state("x");
    s.scroll_offset = 5;
    s.scroll_up(2);
    assert_eq!(s.scroll_offset, 3);
    s.scroll_up(10);
    assert_eq!(s.scroll_offset, 0);
    s.scroll_offset = 4;
    s.scroll_up(4);
    assert_eq!(s.scroll_offset, 0);
}

#[test]
fn mode_cycle_resets_offset() {
    let mut s = md_state("a\n\nb");
    let modes = [ViewMode::Source, ViewMode::SideBySide, ViewMode::Rendered, ViewMode::Source];
    for m in modes {
        s.scroll_offset = 3;
        s.toggle_view_mode();
        assert_eq!(s.view_mode, m);
        assert_eq!(s.scroll_offset, 0);
    }
}

#[test]
fn plain_document_stays_in_source() {
    let mut s = plain_state("a\nb\nc");
    s.scroll_offset = 2;
    for _ in 0..4 {
        s.toggle_view_mode();
        assert_eq!(s.view_mode, ViewMode::Source);
        assert_eq!(s.scroll_offset, 2);
    }
}

#[test]
fn content_lines_by_mode() {
    let mut s = md_state("# A\n\n\n\nb\nc\r\nd\n");
    assert_eq!(s.get_content_lines(), vec!["# A", "b", "c", "d"]);
    assert_eq!(s.line_count(), 4);
    s.toggle_view_mode();
    assert_eq!(s.get_content_lines(), vec!["# A", "", "", "", "b", "c", "d"]);
    s.toggle_view_mode();
    assert_eq!(s.line_count(), 7);
}

#[test]
fn active_count_rule() {
    assert_eq!(active_line_count(ViewMode::Rendered, 3, 8), 3);
    assert_eq!(active_line_count(ViewMode::Source, 3, 8), 8);
    assert_eq!(active_line_count(ViewMode::SideBySide, 3, 8), 8);
    assert_eq!(active_line_count(ViewMode::SideBySide, 9, 8), 9);
}

#[test]
fn window_is_clipped() {
    let lines: Vec<String> = vec!["**a**".to_string(), "b".to_string(), "c".to_string()];
    let w = visible_window(&lines, 1, 5, true);
    assert_eq!(w.len(), 2);
    assert_eq!(w[0][0].text, "b");
    let w = visible_window(&lines, 0, 1, true);
    assert_eq!(w.len(), 1);
    assert_eq!(w[0][0].text, "a");
    assert_eq!(w[0][0].style, Style::Bold);
    assert!(visible_window(&lines, 3, 5, true).is_empty());
    assert!(visible_window(&lines, 0, 0, true).is_empty());
}

#[test]
fn single_view_styles_rendered_only() {
    let mut s = md_state("**a**");
    let v = s.single_view(10);
    assert_eq!(v.len(), 1);
    assert_eq!(v[0][0].style, Style::Bold);
    s.toggle_view_mode();
    let v = s.single_view(10);
    assert_eq!(v[0][0].text, "**a**");
    assert_eq!(v[0][0].style, Style::Plain);
}

#[test]
fn side_by_side_panes() {
    let mut s = md_state("# T\n\n*x*");
    s.toggle_view_mode();
    s.toggle_view_mode();
    assert_eq!(s.view_mode, ViewMode::SideBySide);
    let (left, right) = s.side_by_side(2);
    assert_eq!(left.len(), 2);
    assert_eq!(left[0][0].style, Style::HeaderBold);
    assert_eq!(left[1][0].style, Style::Italic);
    assert_eq!(right.len(), 2);
    assert_eq!(right[0][0].text, "# T");
    assert!(right[1].is_empty());
}

#[test]
fn actions_drive_the_state() {
    let mut s = md_state("1\n\n2\n\n3\n\n4\n\n5\n\n6\n\n7\n\n8\n\n9\n\n10\n\n11\n\n12");
    assert_eq!(s.line_count(), 12);
    assert_eq!(s.apply(Action::LineDown), Outcome::Continue);
    assert_eq!(s.scroll_offset, 1);
    s.apply(Action::PageDown);
    assert_eq!(s.scroll_offset, 11);
    s.apply(Action::End);
    assert_eq!(s.scroll_offset, 11);
    s.apply(Action::PageDown);
    assert_eq!(s.scroll_offset, 11);
    s.apply(Action::PageUp);
    assert_eq!(s.scroll_offset, 1);
    s.apply(Action::LineUp);
    assert_eq!(s.scroll_offset, 0);
    s.scroll_offset = 4;
    s.apply(Action::Home);
    assert_eq!(s.scroll_offset, 0);
    s.scroll_offset = 4;
    s.apply(Action::Advance);
    assert_eq!(s.view_mode, ViewMode::Source);
    assert_eq!(s.scroll_offset, 0);
    assert_eq!(s.line_count(), 23);
    s.apply(Action::End);
    assert_eq!(s.scroll_offset, 22);
    assert_eq!(s.apply(Action::Help), Outcome::ShowHelp);
    assert_eq!(s.apply(Action::Ignore), Outcome::Continue);
    assert_eq!(s.apply(Action::Quit), Outcome::Quit);
}

#[test]
fn end_of_empty_document() {
    let mut s = plain_state("");
    s.apply(Action::End);
    assert_eq!(s.scroll_offset, 0);
    s.apply(Action::LineDown);
    assert_eq!(s.scroll_offset, 0);
}

#[test]
fn nested_list_then_paragraph_leaves_one_blank_line() {
    assert_eq!(AppState::render_markdown("- a\n  - b\n\nc"), "• a\n• b\n\nc");
}

#[test]
fn list_then_code_fence() {
    assert_eq!(AppState::render_markdown("- a\n\n```\nx\n```"), "• a\n\n```\nx\n\n```");
}

#[test]
fn two_headings() {
    assert_eq!(AppState::render_markdown("# A\n## B"), "# A\n\n## B");
}

#[test]
fn inline_markers_are_normalized() {
    assert_eq!(AppState::render_markdown("_a_, __b__ and `c`"), "*a*, **b** and `c`");
}

#[test]
fn bullet_items() {
    assert_eq!(AppState::render_markdown("- a\n- b"), "• a\n• b");
}

#[test]
fn paragraphs_one_break_apart() {
    assert_eq!(AppState::render_markdown("a\n\nb"), "a\nb");
}

#[test]
fn thematic_break() {
    assert_eq!(AppState::render_markdown("a\n\n---\n\nb"), "a\n\n---\nb");
}

#[test]
fn unterminated_marker_renders_as_itself() {
    assert_eq!(AppState::render_markdown("a **b"), "a **b");
}

#[test]
fn new_renders_markdown_content() {
    let s = md_state("- a\n- b");
    assert_eq!(s.rendered_content, AppState::render_markdown("- a\n- b"));
    assert_eq!(s.file_path, "notes.md");
}

#[test]
fn line_splitting_rule() {
    assert_eq!(lines_of("a\nb\r\n\nc\r"), vec!["a", "b", "", "c\r"]);
    assert_eq!(lines_of("x\n"), vec!["x"]);
    assert_eq!(lines_of("\n"), vec![""]);
    assert!(lines_of("").is_empty());
    assert_eq!(lines_of("a\nb\nc").len(), 3);
}

#[test]
fn trim_uses_unicode_white_space() {
    let events = vec![MdEvent::Text("\u{3000} \tx y\u{a0}\n".to_string())];
    assert_eq!(render_events(&events), "x y");
}
