use richdoc::ast::ASTNode;
use richdoc::delta_parser::DeltaParser;
use richdoc::mathsplit::TextPart;

#[test]
fn test_complex_delta_parsing() {
    let delta_json = "{\"ops\":[{\"attributes\":{\"bold\":true},\"insert\":\"加粗\"},{\"insert\":\"\\n\"},{\"attributes\":{\"italic\":true},\"insert\":\"倾斜\"},{\"insert\":\"\\n\"},{\"attributes\":{\"underline\":true},\"insert\":\"下划线\"},{\"insert\":\"\\n\"},{\"attributes\":{\"color\":\"#e60000\"},\"insert\":\"颜色\"},{\"insert\":\"\\n有序\"},{\"attributes\":{\"list\":\"ordered\"},\"insert\":\"\\n\"},{\"insert\":\"有序\"},{\"attributes\":{\"list\":\"ordered\"},\"insert\":\"\\n\"},{\"insert\":\"无序\"},{\"attributes\":{\"list\":\"bullet\"},\"insert\":\"\\n\"},{\"insert\":\"无序\"},{\"attributes\":{\"list\":\"bullet\"},\"insert\":\"\\n\"},{\"insert\":{\"imageContainer\":{\"fullScreen\":\"0\",\"width\":\"320\",\"height\":\"207\",\"url\":\"https://example.com/image.png\"}}},{\"insert\":\"\\n\"},{\"insert\":{\"mention\":{\"index\":\"0\",\"denotationChar\":\"@\",\"id\":\"all\",\"name\":\"所有人\"}}},{\"insert\":\" \"},{\"insert\":{\"mention\":{\"index\":\"2\",\"denotationChar\":\"@\",\"id\":\"MDEP000227\",\"name\":\"张春山\",\"user_type\":\"0\"}}},{\"insert\":\" \"},{\"insert\":{\"mention\":{\"index\":\"1\",\"denotationChar\":\"@\",\"id\":\"MDEP005343\",\"name\":\"刘国庆\",\"user_type\":\"0\"}}},{\"insert\":\" \\n\\n\"}]}";

    let parser = DeltaParser::new();
    let result = parser.parse(delta_json);

    assert!(result.is_ok(), "Parse failed: {:?}", result.err());

    let ast = result.unwrap();

    assert!(ast.children.len() > 0, "AST should contain child nodes");

    let has_list = ast.children.iter().any(|node| matches!(node, ASTNode::List(_)));
    assert!(has_list, "AST should contain list nodes");

    let has_image = ast.children.iter().any(|node| matches!(node, ASTNode::Image(_)));
    assert!(has_image, "AST should contain image nodes");
}

#[test]
fn two_adjacent_lists_of_different_kinds() {
    // An ordered item "A" followed by a bullet item "B" gives two adjacent
    // lists, each with a single item.
    let input = "{\"ops\":[{\"insert\":\"A\"},{\"insert\":\"\\n\",\"attributes\":{\"list\":\"ordered\"}},{\"insert\":\"B\"},{\"insert\":\"\\n\",\"attributes\":{\"list\":\"bullet\"}}]}";
    let ast = DeltaParser::new().parse(input).unwrap();
    assert_eq!(ast.children.len(), 2);
    match &ast.children[0] {
        ASTNode::List(l) => {
            assert!(matches!(l.list_type, richdoc::ast::ListType::Ordered));
            assert_eq!(l.items.len(), 1);
            match &l.items[0].children[0] {
                ASTNode::Text(t) => assert_eq!(t.content, "A"),
                other => panic!("unexpected item child: {:?}", other),
            }
        },
        other => panic!("expected a list, got {:?}", other),
    }
    match &ast.children[1] {
        ASTNode::List(l) => {
            assert!(matches!(l.list_type, richdoc::ast::ListType::Bullet));
            assert_eq!(l.items.len(), 1);
            match &l.items[0].children[0] {
                ASTNode::Text(t) => assert_eq!(t.content, "B"),
                other => panic!("unexpected item child: {:?}", other),
            }
        },
        other => panic!("expected a list, got {:?}", other),
    }
}

#[test]
fn image_closes_open_list() {
    // An embedded image while a list is open closes the list and emits a
    // block image with the container's URL.
    let input = "{\"ops\":[{\"insert\":\"item\"},{\"insert\":\"\\n\",\"attributes\":{\"list\":\"bullet\"}},{\"insert\":{\"imageContainer\":{\"url\":\"https://x/y.png\"}}}]}";
    let ast = DeltaParser::new().parse(input).unwrap();
    assert_eq!(ast.children.len(), 2);
    assert!(matches!(&ast.children[0], ASTNode::List(_)));
    match &ast.children[1] {
        ASTNode::Image(img) => assert_eq!(img.url, "https://x/y.png"),
        other => panic!("expected an image, got {:?}", other),
    }
}

#[test]
fn inline_math_split_in_delta_text() {
    // "text $x$ more" splits into a text run, an inline formula, a text run.
    let parser = DeltaParser::new();
    let parts = parser.split_math_formulas("text $x$ more");
    assert_eq!(parts.len(), 3);
    match &parts[0] {
        TextPart::Text(t) => assert_eq!(t, "text "),
        other => panic!("unexpected part: {:?}", other),
    }
    match &parts[1] {
        TextPart::Math(c, display) => {
            assert_eq!(c, "x");
            assert!(!display);
        },
        other => panic!("unexpected part: {:?}", other),
    }
    match &parts[2] {
        TextPart::Text(t) => assert_eq!(t, " more"),
        other => panic!("unexpected part: {:?}", other),
    }
}

#[test]
fn inline_math_in_delta_paragraph() {
    let input = "{\"ops\":[{\"insert\":\"text $x$ more\"},{\"insert\":\"\\n\"}]}";
    let ast = DeltaParser::new().parse(input).unwrap();
    assert_eq!(ast.children.len(), 1);
    match &ast.children[0] {
        ASTNode::Paragraph(p) => {
            assert_eq!(p.children.len(), 3);
            assert!(matches!(&p.children[0], ASTNode::Text(t) if t.content == "text "));
            assert!(
                matches!(&p.children[1], ASTNode::Math(m) if m.content == "x" && !m.display)
            );
            assert!(matches!(&p.children[2], ASTNode::Text(t) if t.content == " more"));
        },
        other => panic!("expected a paragraph, got {:?}", other),
    }
}

#[test]
fn unmatched_dollar_stays_text() {
    let parser = DeltaParser::new();
    let parts = parser.split_inline_math_delta("price $5");
    assert_eq!(parts.len(), 1);
    assert!(matches!(&parts[0], TextPart::Text(t) if t == "price $5"));
}

#[test]
fn formula_insert_becomes_display_math() {
    let input = "{\"ops\":[{\"insert\":{\"formula\":\"e=mc^2\"}},{\"insert\":\"\\n\"}]}";
    let ast = DeltaParser::new().parse(input).unwrap();
    assert!(matches!(&ast.children[0], ASTNode::Math(m) if m.content == "e=mc^2" && m.display));
}

#[test]
fn styled_text_nested_in_fixed_order() {
    // bold and italic on one run: Strong wraps Em wraps the text leaf.
    let input = "{\"ops\":[{\"insert\":\"hi\",\"attributes\":{\"bold\":true,\"italic\":true}},{\"insert\":\"\\n\"}]}";
    let ast = DeltaParser::new().parse(input).unwrap();
    match &ast.children[0] {
        ASTNode::Paragraph(p) => match &p.children[0] {
            ASTNode::Strong(s) => match &s.children[0] {
                ASTNode::Em(e) => {
                    assert!(matches!(&e.children[0], ASTNode::Text(t) if t.content == "hi"));
                },
                other => panic!("expected em inside strong, got {:?}", other),
            },
            other => panic!("expected strong outermost, got {:?}", other),
        },
        other => panic!("expected a paragraph, got {:?}", other),
    }
}

#[test]
fn code_attribute_short_circuits_styling() {
    let input = "{\"ops\":[{\"insert\":\"x+1\",\"attributes\":{\"code\":true,\"bold\":true}},{\"insert\":\"\\n\"}]}";
    let ast = DeltaParser::new().parse(input).unwrap();
    match &ast.children[0] {
        ASTNode::Paragraph(p) => {
            assert!(matches!(&p.children[0], ASTNode::Code(c) if c.content == "x+1"));
        },
        other => panic!("expected a paragraph, got {:?}", other),
    }
}

#[test]
fn malformed_envelope_is_a_json_error() {
    let parser = DeltaParser::new();
    match parser.parse("not json at all") {
        Err(richdoc::ParseError::JsonError(_)) => {},
        other => panic!("expected a JSON error, got {:?}", other),
    }
    match parser.parse("{\"nops\":[]}") {
        Err(richdoc::ParseError::JsonError(_)) => {},
        other => panic!("expected a JSON error, got {:?}", other),
    }
}

#[test]
fn malformed_operation_is_skipped() {
    // A numeric insert is not a recognized operation; it is skipped rather
    // than aborting the parse.
    let input = "{\"ops\":[{\"insert\":7},{\"insert\":\"ok\"},{\"insert\":\"\\n\"}]}";
    let ast = DeltaParser::new().parse(input).unwrap();
    assert_eq!(ast.children.len(), 1);
    match &ast.children[0] {
        ASTNode::Paragraph(p) => {
            assert!(matches!(&p.children[0], ASTNode::Text(t) if t.content == "ok"));
        },
        other => panic!("expected a paragraph, got {:?}", other),
    }
}

#[test]
fn mention_and_emoji_are_inline() {
    let input = "{\"ops\":[{\"insert\":{\"mention\":{\"id\":\"u1\"}}},{\"insert\":{\"emoji\":{\"content\":\"😀\"}}},{\"insert\":\"\\n\"}]}";
    let ast = DeltaParser::new().parse(input).unwrap();
    assert_eq!(ast.children.len(), 1);
    match &ast.children[0] {
        ASTNode::Paragraph(p) => {
            // The mention's name falls back to its id when absent.
            assert!(
                matches!(&p.children[0], ASTNode::Mention(m) if m.id == "u1" && m.name == "u1")
            );
            assert!(matches!(&p.children[1], ASTNode::Emoji(e) if e.content == "😀"));
        },
        other => panic!("expected a paragraph, got {:?}", other),
    }
}

#[test]
fn block_math_inside_delta_text() {
    let parser = DeltaParser::new();
    let parts = parser.split_math_formulas("a $$x+y$$ b");
    assert_eq!(parts.len(), 3);
    assert!(matches!(&parts[1], TextPart::Math(c, display) if c == "x+y" && *display));
}

#[test]
fn plain_newline_closes_open_list() {
    // Inside a list, a plain newline flushes the pending text as a final
    // plain item and closes the list.
    let input = "{\"ops\":[{\"insert\":\"A\"},{\"insert\":\"\\n\",\"attributes\":{\"list\":\"bullet\"}},{\"insert\":\"after\"},{\"insert\":\"\\n\"}]}";
    let ast = DeltaParser::new().parse(input).unwrap();
    assert_eq!(ast.children.len(), 1);
    match &ast.children[0] {
        ASTNode::List(l) => {
            assert_eq!(l.items.len(), 2);
            assert_eq!(l.items[1].checked, None);
            assert!(
                matches!(&l.items[1].children[0], ASTNode::Text(t) if t.content == "after")
            );
        },
        other => panic!("expected a list, got {:?}", other),
    }
}

#[test]
fn checked_and_unchecked_delta_items() {
    let input = "{\"ops\":[{\"insert\":\"A\"},{\"insert\":\"\\n\",\"attributes\":{\"list\":\"checked\"}},{\"insert\":\"B\"},{\"insert\":\"\\n\",\"attributes\":{\"list\":\"unchecked\"}}]}";
    let ast = DeltaParser::new().parse(input).unwrap();
    assert_eq!(ast.children.len(), 1);
    match &ast.children[0] {
        ASTNode::List(l) => {
            assert!(matches!(l.list_type, richdoc::ast::ListType::Bullet));
            assert_eq!(l.items.len(), 2);
            assert_eq!(l.items[0].checked, Some(true));
            assert_eq!(l.items[1].checked, Some(false));
        },
        other => panic!("expected a list, got {:?}", other),
    }
}

#[test]
fn empty_text_insert_contributes_nothing() {
    // An empty text insertion adds no node: text leaves are never empty.
    let ast = DeltaParser::new().parse("{\"ops\":[{\"insert\":\"\"}]}").unwrap();
    assert_eq!(ast.children.len(), 0);
    // An empty run before a newline still yields the empty paragraph that
    // the newline itself denotes, with no text leaf inside.
    let ast2 = DeltaParser::new()
        .parse("{\"ops\":[{\"insert\":\"\"},{\"insert\":\"\\n\"}]}")
        .unwrap();
    assert_eq!(ast2.children.len(), 1);
    match &ast2.children[0] {
        ASTNode::Paragraph(p) => assert_eq!(p.children.len(), 0),
        other => panic!("expected a paragraph, got {:?}", other),
    }
}
