use open_live_writer::markdown::{
    blocks_of_tree, parse_blocks, parse_inline, pieces_of_tree, strip_inline, Block, InlineStyle,
};
use open_live_writer::tree::{parse_tree, MarkNode};

#[test]
fn parses_the_blocks_used_by_the_preview() {
    assert_eq!(
        parse_blocks("# 标题\n\n- 一\n\n1. 二\n\n> 三\n\n```\nlet x = 1;\n```"),
        vec![
            Block::Heading {
                level: 1,
                text: "标题".into()
            },
            Block::Bullet {
                text: "一".into(),
                depth: 0
            },
            Block::Numbered {
                marker: "1".into(),
                text: "二".into(),
                depth: 0,
            },
            Block::Quote("三".into()),
            Block::Code {
                text: "let x = 1;".into(),
                language: None,
            },
        ]
    );
}

#[test]
fn parses_gfm_tasks_and_notion_asides() {
    assert_eq!(
        parse_blocks(
            "- [ ] 待完成\n- [x] 已完成\n\n<aside>💡 **提示**</aside>\n\n<aside></aside>"
        ),
        vec![
            Block::Task {
                checked: false,
                text: "待完成".into(),
                depth: 0,
            },
            Block::Task {
                checked: true,
                text: "已完成".into(),
                depth: 0,
            },
            Block::Aside("💡 **提示**".into()),
            Block::Aside(String::new()),
        ]
    );
}

#[test]
fn parses_images_and_tables_without_swallowing_following_text() {
    assert_eq!(
        parse_blocks(
            "![封面](https://example.com/a.png)\n\n| 名称 | 值 |\n| --- | --- |\n| 一 | 二 |\n\n正文"
        ),
        vec![
            Block::Image {
                alt: "封面".into(),
                url: "https://example.com/a.png".into(),
            },
            Block::Table {
                headers: vec!["名称".into(), "值".into()],
                rows: vec![vec!["一".into(), "二".into()]],
            },
            Block::Paragraph("正文".into()),
        ]
    );
    assert_eq!(
        parse_blocks("[视频](https://example.com/video)"),
        vec![Block::Video {
            url: "https://example.com/video".into(),
        }]
    );
}

#[test]
fn parses_inline_styles_links_and_images() {
    let pieces =
        parse_inline("**粗体** *斜体* `代码` [链接](https://example.com) ![图](a.png)");
    assert_eq!(pieces[0].text, "粗体");
    assert_eq!(pieces[0].styles, vec![InlineStyle::Bold]);
    assert_eq!(pieces[2].styles, vec![InlineStyle::Italic]);
    assert_eq!(pieces[4].styles, vec![InlineStyle::Code]);
    assert_eq!(pieces[6].link.as_deref(), Some("https://example.com"));
    assert_eq!(pieces[8].text, "图");
    assert_eq!(pieces[8].image.as_deref(), Some("a.png"));

    // Nested link inside bold keeps both annotations.
    let pieces = parse_inline("**[链接](https://x)**");
    assert_eq!(pieces[0].styles, vec![InlineStyle::Bold]);
    assert_eq!(pieces[0].link.as_deref(), Some("https://x"));

    // GFM does not treat intraword underscores as emphasis.
    let pieces = parse_inline("snake_case");
    assert_eq!(pieces.len(), 1);
    assert!(pieces[0].styles.is_empty());
    assert_eq!(pieces[0].text, "snake_case");
}

#[test]
fn strips_common_inline_markdown() {
    assert_eq!(
        strip_inline("**粗体** [链接](https://example.com)"),
        "粗体 链接"
    );
    assert_eq!(strip_inline("![图片](https://example.com/a.png)"), "图片");
}

#[test]
fn preserves_nested_list_depth() {
    assert_eq!(
        parse_blocks("- a\n  - b\n    - c"),
        vec![
            Block::Bullet {
                text: "a".into(),
                depth: 0
            },
            Block::Bullet {
                text: "b".into(),
                depth: 1
            },
            Block::Bullet {
                text: "c".into(),
                depth: 2
            },
        ]
    );
}

fn text(value: &str) -> MarkNode {
    MarkNode::Text(value.to_owned())
}

#[test]
fn builds_blocks_from_a_tree() {
    let tree = MarkNode::Root(vec![
        MarkNode::List {
            ordered: true,
            start: Some(u32::MAX),
            children: vec![
                MarkNode::ListItem {
                    checked: None,
                    children: vec![
                        MarkNode::Paragraph(vec![MarkNode::Strong(vec![text("a")])]),
                        MarkNode::Code { value: "x".to_owned(), lang: None },
                    ],
                },
                MarkNode::ListItem {
                    checked: None,
                    children: vec![MarkNode::Paragraph(vec![text("b")])],
                },
            ],
        },
        MarkNode::Blockquote(vec![MarkNode::Paragraph(vec![text(" ")])]),
        MarkNode::Html("<ASIDE class=\"x\"> hint </Aside>".to_owned()),
        MarkNode::Html("<b>".to_owned()),
        MarkNode::Paragraph(vec![MarkNode::Link {
            url: "u".to_owned(),
            children: vec![text(" VIDEO ")],
        }]),
        MarkNode::InlineMath("x".to_owned()),
        MarkNode::ThematicBreak,
        MarkNode::Other,
    ]);
    assert_eq!(
        blocks_of_tree(&tree),
        vec![
            Block::Numbered {
                marker: "4294967295".into(),
                text: "**a**\n`x`".into(),
                depth: 0,
            },
            Block::Numbered {
                marker: "0".into(),
                text: "b".into(),
                depth: 0,
            },
            Block::Aside("hint".into()),
            Block::Html("<b>".into()),
            Block::Video { url: "u".into() },
            Block::Paragraph("$x$".into()),
            Block::Divider,
        ]
    );
}

#[test]
fn quotes_hold_lists_and_code() {
    assert_eq!(
        parse_blocks("> a\n>\n> - b\n> - c\n>\n> ```\n> d\n> ```"),
        vec![Block::Quote("a\nb\nc\n`d`".into())]
    );
}

#[test]
fn pieces_carry_nested_styles() {
    let tree = MarkNode::Paragraph(vec![
        MarkNode::Strong(vec![MarkNode::Delete(vec![text("a"), MarkNode::InlineCode("b".to_owned())])]),
        text(""),
        MarkNode::Break,
    ]);
    let pieces = pieces_of_tree(&tree);
    assert_eq!(pieces.len(), 3);
    assert_eq!(pieces[0].styles, vec![InlineStyle::Bold, InlineStyle::Strike]);
    assert_eq!(
        pieces[1].styles,
        vec![InlineStyle::Bold, InlineStyle::Strike, InlineStyle::Code]
    );
    assert_eq!(pieces[2].text, "\n");
}

#[test]
fn the_parser_builds_a_root() {
    match parse_tree("# *a*") {
        Some(MarkNode::Root(children)) => match &children[0] {
            MarkNode::Heading { depth, children } => {
                assert_eq!(*depth, 1);
                assert!(matches!(&children[0], MarkNode::Emphasis(_)));
            }
            other => panic!("unexpected {:?}", other),
        },
        other => panic!("unexpected {:?}", other),
    }
}
