use richdoc::ast::{ASTNode, BlockquoteNode, CardNode, CodeBlockNode, CodeNode, ColorNode, EmNode, EmojiNode, HeadingNode, HorizontalRuleNode, ImageNode, LinkNode, ListItemNode, ListNode, ListType, MathNode, MentionNode, MermaidNode, ParagraphNode, RootNode, StrikeNode, StrongNode, TableCell, TableNode, TableRow, TextAlign, TextNode, UnderlineNode};
use richdoc::ast_builder::ASTBuilder;
use richdoc::cache::{generate_cache_key, ASTCache, CacheEntry, HeightCache};
use richdoc::height::LayoutContext;
use richdoc::{deserialize_ast, parse_markdown, serialize_ast};

#[test]
fn heading_level_clamps_low_and_high() {
    let mut b = ASTBuilder::new();
    b.add_heading(0, Vec::new());
    b.add_heading(9, Vec::new());
    b.add_heading(3, Vec::new());
    let root = b.end_document();
    let levels: Vec<u8> = root
        .children
        .iter()
        .map(|n| match n {
            ASTNode::Heading(h) => h.level,
            other => panic!("expected a heading, got {:?}", other),
        })
        .collect();
    assert_eq!(levels, vec![1, 6, 3]);
}

#[test]
fn markdown_block_math_paragraph_reclassified() {
    // A paragraph holding exactly "$$x^2$$" becomes one display-math node.
    let ast = parse_markdown("$$x^2$$").unwrap();
    assert_eq!(ast.children.len(), 1);
    match &ast.children[0] {
        ASTNode::Math(m) => {
            assert_eq!(m.content, "x^2");
            assert!(m.display);
        },
        other => panic!("expected a math node, got {:?}", other),
    }
}

#[test]
fn markdown_inline_math_in_text() {
    let ast = parse_markdown("text $x$ more").unwrap();
    match &ast.children[0] {
        ASTNode::Paragraph(p) => {
            assert_eq!(p.children.len(), 3);
            assert!(matches!(&p.children[0], ASTNode::Text(t) if t.content == "text "));
            assert!(
                matches!(&p.children[1], ASTNode::Math(m) if m.content == "x" && !m.display)
            );
            assert!(matches!(&p.children[2], ASTNode::Text(t) if t.content == " more"));
        },
        other => panic!("expected a paragraph, got {:?}", other),
    }
}

#[test]
fn markdown_heading_and_list() {
    let ast = parse_markdown("# Title\n\n- one\n- two\n").unwrap();
    assert!(ast.children.len() >= 2);
    match &ast.children[0] {
        ASTNode::Heading(h) => assert_eq!(h.level, 1),
        other => panic!("expected a heading, got {:?}", other),
    }
    match &ast.children[1] {
        ASTNode::List(l) => {
            assert!(matches!(l.list_type, ListType::Bullet));
            assert_eq!(l.items.len(), 2);
        },
        other => panic!("expected a list, got {:?}", other),
    }
}

#[test]
fn markdown_mermaid_fence() {
    let ast = parse_markdown("```mermaid\ngraph TD;\n```\n").unwrap();
    assert!(matches!(&ast.children[0], ASTNode::Mermaid(m) if m.content == "graph TD;"));
}

#[test]
fn markdown_plain_code_fence() {
    let ast = parse_markdown("```rust\nlet x = 1;\n```\n").unwrap();
    match &ast.children[0] {
        ASTNode::CodeBlock(cb) => {
            assert_eq!(cb.language.as_deref(), Some("rust"));
            assert_eq!(cb.content, "let x = 1;");
        },
        other => panic!("expected a code block, got {:?}", other),
    }
}

#[test]
fn markdown_task_list_checked_state() {
    let ast = parse_markdown("- [x] done\n- [ ] todo\n").unwrap();
    match &ast.children[0] {
        ASTNode::List(l) => {
            assert_eq!(l.items.len(), 2);
            assert_eq!(l.items[0].checked, Some(true));
            assert_eq!(l.items[1].checked, Some(false));
        },
        other => panic!("expected a list, got {:?}", other),
    }
}

#[test]
fn serialized_tree_round_trips() {
    let src = "# Title\n\ntext $x$ more\n\n- [x] item\n\n$$e=mc^2$$\n";
    let ast = parse_markdown(src).unwrap();
    let json1 = serialize_ast(&ast).unwrap();
    let back = deserialize_ast(&json1).unwrap();
    let json2 = serialize_ast(&back).unwrap();
    assert_eq!(json1, json2);
    assert_eq!(ast.children.len(), back.children.len());
}

#[test]
fn serialize_concrete_shape() {
    let root = RootNode {
        children: vec![
            ASTNode::Heading(HeadingNode {
                level: 2,
                children: vec![ASTNode::Text(TextNode { content: "hi".to_string() })],
            }),
        ],
    };
    let json = serialize_ast(&root).unwrap();
    assert_eq!(
        json,
        "{\"children\":[{\"type\":\"heading\",\"level\":2,\"children\":[{\"type\":\"text\",\"content\":\"hi\"}]}]}"
    );
}

#[test]
fn deserialize_rejects_non_document() {
    assert!(matches!(
        deserialize_ast("[1,2,3]"),
        Err(richdoc::ParseError::JsonError(_))
    ));
    assert!(matches!(
        deserialize_ast("{\"children\":[{\"type\":\"mystery\"}]}"),
        Err(richdoc::ParseError::JsonError(_))
    ));
}

#[test]
fn escaped_strings_round_trip() {
    let root = RootNode {
        children: vec![ASTNode::Text(TextNode {
            content: "a\"b\\c\nd\te\u{8}\u{1}汉".to_string(),
        })],
    };
    let json1 = serialize_ast(&root).unwrap();
    let back = deserialize_ast(&json1).unwrap();
    match &back.children[0] {
        ASTNode::Text(t) => assert_eq!(t.content, "a\"b\\c\nd\te\u{8}\u{1}汉"),
        other => panic!("expected text, got {:?}", other),
    }
}

#[test]
fn unicode_escapes_are_decoded() {
    let back = deserialize_ast(
        "{\"children\":[{\"type\":\"text\",\"content\":\"\\u0041\\u00e9\\ud83d\\ude00\"}]}",
    )
    .unwrap();
    match &back.children[0] {
        ASTNode::Text(t) => assert_eq!(t.content, "Aé😀"),
        other => panic!("expected text, got {:?}", other),
    }
}

#[test]
fn text_height_is_exact_for_one_line() {
    // Width 300 px (30000 hundredths), font 16 px: 31 characters per line,
    // so a five-character run is one line of 24 px (2400 hundredths).
    let ctx = LayoutContext::default();
    let node = ASTNode::Text(TextNode { content: "hello".to_string() });
    assert_eq!(node.estimated_height(30000, &ctx), 2400);
}

#[test]
fn math_height_formula() {
    // Ten characters: one 40 px line for display math plus 16 px padding.
    let ctx = LayoutContext::default();
    let node = ASTNode::Math(MathNode { content: "x".repeat(10), display: true });
    assert_eq!(node.estimated_height(30000, &ctx), 4000 + 1600);
    let inline = ASTNode::Math(MathNode { content: "x".repeat(51), display: false });
    assert_eq!(inline.estimated_height(30000, &ctx), 2 * 2400 + 1600);
}

#[test]
fn narrower_container_never_lowers_text_height() {
    let ctx = LayoutContext::default();
    let node = ASTNode::Text(TextNode { content: "x".repeat(200) });
    let mut prev = u64::MAX;
    for w in [1000u64, 5000, 10000, 20000, 40000, 80000] {
        let h = node.estimated_height(w, &ctx);
        assert!(h <= prev, "height grew when the container widened");
        prev = h;
    }
}

#[test]
fn cache_entry_expiry_is_strict() {
    let e = CacheEntry::new(42u64, 10, 100);
    assert!(!e.is_expired(100));
    assert!(!e.is_expired(110));
    assert!(e.is_expired(111));
}

#[test]
fn value_set_with_ttl_is_live_then_absent() {
    let mut cache: HeightCache = HeightCache::new(50);
    cache.set("k".to_string(), 7, Some(10), 100);
    assert_eq!(cache.get("k", 100), Some(&7));
    assert_eq!(cache.get("k", 110), Some(&7));
    assert_eq!(cache.get("k", 111), None);
    assert_eq!(cache.get("missing", 100), None);
}

#[test]
fn cache_set_replaces_and_cleanup_drops_expired() {
    let mut cache: ASTCache = ASTCache::new(1000);
    let a = parse_markdown("a").unwrap();
    let b = parse_markdown("# b").unwrap();
    cache.set("k".to_string(), a, None, 0);
    cache.set("k".to_string(), b, None, 5);
    assert_eq!(cache.len(), 1);
    match cache.get("k", 10) {
        Some(root) => assert!(matches!(&root.children[0], ASTNode::Heading(_))),
        None => panic!("expected a live entry"),
    }
    cache.cleanup_expired(2000);
    assert_eq!(cache.len(), 0);
}

#[test]
fn cache_keys_are_stable_hex() {
    let k1 = generate_cache_key("hello");
    let k2 = generate_cache_key("hello");
    let k3 = generate_cache_key("hellp");
    assert_eq!(k1, k2);
    assert_ne!(k1, k3);
    assert!(k1.chars().all(|c| c.is_ascii_hexdigit()));
}

#[test]
fn markdown_blockquote_and_rule() {
    let ast = parse_markdown("> quoted\n\n---\n").unwrap();
    assert!(matches!(&ast.children[0], ASTNode::Blockquote(_)));
    assert!(ast.children.iter().any(|n| matches!(n, ASTNode::HorizontalRule(_))));
}

#[test]
fn markdown_table_rows_and_cells() {
    let ast = parse_markdown("| a | b |\n|---|---|\n| c | d |\n").unwrap();
    match &ast.children[0] {
        ASTNode::Table(t) => {
            assert_eq!(t.rows.len(), 2);
            assert_eq!(t.rows[0].cells.len(), 2);
        },
        other => panic!("expected a table, got {:?}", other),
    }
}

#[test]
fn code_block_height_counts_lines() {
    // Two code lines at 14 px * 1.4 (1960 hundredths each) plus 32 px padding.
    let ctx = LayoutContext::default();
    let node = ASTNode::CodeBlock(richdoc::ast::CodeBlockNode {
        language: None,
        content: "a\nb".to_string(),
    });
    assert_eq!(node.estimated_height(30000, &ctx), 2 * 1960 + 3200);
}

#[test]
fn image_height_scales_down_only() {
    let ctx = LayoutContext::default();
    let wide = ASTNode::Image(richdoc::ast::ImageNode {
        url: "u".to_string(),
        width: Some(600),
        height: Some(300),
        alt: None,
    });
    // Container 300 px: the 600x300 image halves to 150 px.
    assert_eq!(wide.estimated_height(30000, &ctx), 15000);
    // Container 1200 px: the image keeps its intrinsic 300 px.
    assert_eq!(wide.estimated_height(120000, &ctx), 30000);
    let bare = ASTNode::Image(richdoc::ast::ImageNode {
        url: "u".to_string(),
        width: None,
        height: None,
        alt: None,
    });
    // No intrinsic size: three quarters of the container width.
    assert_eq!(bare.estimated_height(40000, &ctx), 30000);
}

#[test]
fn mermaid_height_is_clamped() {
    let ctx = LayoutContext::default();
    let small = ASTNode::Mermaid(richdoc::ast::MermaidNode { content: "g".to_string() });
    assert_eq!(small.estimated_height(30000, &ctx), 20000);
    let big = ASTNode::Mermaid(richdoc::ast::MermaidNode { content: "x".repeat(5000) });
    assert_eq!(big.estimated_height(30000, &ctx), 80000);
}

#[test]
fn root_height_adds_spacing_between_blocks() {
    let ctx = LayoutContext::default();
    let root = RootNode {
        children: vec![
            ASTNode::HorizontalRule(richdoc::ast::HorizontalRuleNode),
            ASTNode::HorizontalRule(richdoc::ast::HorizontalRuleNode),
        ],
    };
    // Two 17 px rules plus one 8 px gap.
    assert_eq!(root.estimated_height(30000, &ctx), 1700 + 1700 + 800);
}

#[test]
fn cache_remove_drops_the_key() {
    let mut cache: HeightCache = HeightCache::new(100);
    cache.set("a".to_string(), 1, None, 0);
    cache.set("b".to_string(), 2, None, 0);
    cache.remove("a");
    assert_eq!(cache.len(), 1);
    assert_eq!(cache.get("a", 0), None);
    assert_eq!(cache.get("b", 0), Some(&2));
}

#[test]
fn every_variant_round_trips() {
    let root = RootNode {
        children: vec![
            ASTNode::Heading(HeadingNode {
                level: 3,
                children: vec![ASTNode::Text(TextNode { content: "h".to_string() })],
            }),
            ASTNode::Paragraph(ParagraphNode {
                children: vec![
                    ASTNode::Strong(StrongNode {
                        children: vec![ASTNode::Em(EmNode {
                            children: vec![ASTNode::Underline(UnderlineNode {
                                children: vec![ASTNode::Strike(StrikeNode {
                                    children: vec![ASTNode::Text(TextNode {
                                        content: "deep".to_string(),
                                    })],
                                })],
                            })],
                        })],
                    }),
                    ASTNode::Color(ColorNode {
                        color: "#ff0000".to_string(),
                        children: vec![ASTNode::Text(TextNode { content: "c".to_string() })],
                    }),
                    ASTNode::Link(LinkNode {
                        url: "https://x/y".to_string(),
                        children: vec![ASTNode::Text(TextNode { content: "l".to_string() })],
                    }),
                    ASTNode::Code(CodeNode { content: "x+1".to_string() }),
                    ASTNode::Mention(MentionNode {
                        id: "u1".to_string(),
                        name: "One".to_string(),
                    }),
                    ASTNode::Emoji(EmojiNode { content: "😀".to_string() }),
                    ASTNode::Math(MathNode { content: "x".to_string(), display: false }),
                ],
            }),
            ASTNode::CodeBlock(CodeBlockNode {
                language: Some("rust".to_string()),
                content: "fn f() {}".to_string(),
            }),
            ASTNode::CodeBlock(CodeBlockNode { language: None, content: "raw".to_string() }),
            ASTNode::Image(ImageNode {
                url: "https://x/i.png".to_string(),
                width: Some(320),
                height: Some(200),
                alt: Some("alt".to_string()),
            }),
            ASTNode::List(ListNode {
                list_type: ListType::Ordered,
                items: vec![
                    ListItemNode {
                        children: vec![ASTNode::Text(TextNode { content: "i".to_string() })],
                        checked: Some(true),
                    },
                    ListItemNode { children: vec![], checked: None },
                ],
            }),
            ASTNode::ListItem(ListItemNode {
                children: vec![ASTNode::Text(TextNode { content: "solo".to_string() })],
                checked: Some(false),
            }),
            ASTNode::Table(TableNode {
                rows: vec![TableRow {
                    cells: vec![
                        TableCell {
                            children: vec![ASTNode::Text(TextNode { content: "a".to_string() })],
                            align: Some(TextAlign::Center),
                        },
                        TableCell { children: vec![], align: None },
                    ],
                }],
            }),
            ASTNode::TableRow(TableRow { cells: vec![] }),
            ASTNode::TableCell(TableCell { children: vec![], align: Some(TextAlign::Right) }),
            ASTNode::Math(MathNode { content: "e=mc^2".to_string(), display: true }),
            ASTNode::Mermaid(MermaidNode { content: "graph".to_string() }),
            ASTNode::Card(CardNode {
                subtype: "note".to_string(),
                content: "body".to_string(),
                metadata: vec![
                    ("k1".to_string(), "v1".to_string()),
                    ("k2".to_string(), "v2".to_string()),
                ],
            }),
            ASTNode::HorizontalRule(HorizontalRuleNode),
            ASTNode::Blockquote(BlockquoteNode {
                children: vec![ASTNode::Paragraph(ParagraphNode {
                    children: vec![ASTNode::Text(TextNode { content: "q".to_string() })],
                })],
            }),
            ASTNode::Root(RootNode { children: vec![] }),
        ],
    };
    let json1 = serialize_ast(&root).unwrap();
    let back = deserialize_ast(&json1).unwrap();
    let json2 = serialize_ast(&back).unwrap();
    assert_eq!(json1, json2);
    assert_eq!(root.children.len(), back.children.len());
}
