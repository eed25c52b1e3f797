use issue_viewer::md::{blocks_from_events, markdown_blocks, MdBlock, MdEvent, MdStyle, MdTag};
use pulldown_cmark::Parser;

#[test]
fn parser_accepts_headings_and_lists() {
    let md = "## 背景\n\n- item\n\n`code`";
    let n = Parser::new(md).count();
    assert!(n > 3);
}

fn text(style: MdStyle, t: &str) -> MdBlock {
    MdBlock::Text { style, text: t.into() }
}

#[test]
fn headings_lists_code_and_rules_lay_out() {
    let md = "# Title\n\n## 背景\n\n- item\n  - nested\n\nplain `code` end  \n\n---\n\n```\nfn x() {}\n```\n";
    let blocks = markdown_blocks(md);
    assert_eq!(
        blocks,
        vec![
            text(MdStyle::Title, "Title"),
            text(MdStyle::Subtitle, "背景"),
            text(MdStyle::Plain, "• item"),
            text(MdStyle::Plain, "  • nested"),
            text(MdStyle::Plain, "plain code end"),
            MdBlock::Rule,
            MdBlock::Code("fn x() {}".into()),
        ]
    );
}

#[test]
fn deep_heading_is_strong_and_soft_break_is_newline() {
    let blocks = markdown_blocks("#### four\n\nline one\nline two");
    assert_eq!(
        blocks,
        vec![text(MdStyle::Strong, "four"), text(MdStyle::Plain, "line one\nline two")]
    );
}

#[test]
fn tags_other_than_layout_tags_are_ignored() {
    let events = vec![
        MdEvent::Start(MdTag::Paragraph),
        MdEvent::Start(MdTag::Other),
        MdEvent::Text("a".into()),
        MdEvent::End(MdTag::Other),
        MdEvent::HardBreak,
        MdEvent::Other,
        MdEvent::Text("b".into()),
        MdEvent::End(MdTag::Paragraph),
        MdEvent::Start(MdTag::Heading(3)),
        MdEvent::Text("h".into()),
        MdEvent::End(MdTag::Heading(3)),
    ];
    let blocks = blocks_from_events(&events);
    assert_eq!(blocks, vec![text(MdStyle::Plain, "a\nb"), text(MdStyle::Subtitle, "h")]);
}

#[test]
fn blank_paragraph_keeps_pending_heading_style() {
    let events = vec![
        MdEvent::Start(MdTag::Heading(1)),
        MdEvent::Text("   ".into()),
        MdEvent::End(MdTag::Heading(1)),
        MdEvent::Start(MdTag::Paragraph),
        MdEvent::Text("after".into()),
        MdEvent::End(MdTag::Paragraph),
    ];
    let blocks = blocks_from_events(&events);
    assert_eq!(blocks, vec![text(MdStyle::Title, "after")]);
}

#[test]
fn empty_markdown_has_no_blocks() {
    assert!(markdown_blocks("").is_empty());
}
