//! The Markdown parser: a third-party block/inline tokenizer produces an
//! event stream, and a verified reduction folds that stream into the
//! document tree with an explicit stack of open contexts (no recursion on
//! the input's nesting depth).
use vstd::prelude::*;

use crate::ast::{ASTNode, GListItem, GNode, ListType, RootNode};
use crate::ast_builder::{
    ASTBuilder, GBuilder, empty_builder, flush_list, flush_para, flush_table, with_block,
    with_inline, push_row,
};
use crate::mathsplit::{GPart, split_block_md, split_inline, trim_seq};

verus! {

broadcast use vstd::std_specs::vec::group_vec_axioms, vstd::seq::group_seq_axioms;

/// The language tag of a code block.
#[derive(Debug)]
pub enum MdCodeKind {
    Indented,
    Fenced(String),
}

/// One tokenizer tag, reduced to the fields the reduction reads.
#[derive(Debug)]
pub enum MdTag {
    Paragraph,
    Heading(u8),
    BlockQuote,
    CodeBlock(MdCodeKind),
    List(Option<u64>),
    Item,
    Table,
    TableHead,
    TableRow,
    TableCell,
    Emphasis,
    Strong,
    Strikethrough,
    Link(String),
    Image(String, String),
    Other,
}

/// One tokenizer event.
#[derive(Debug)]
pub enum MdEvent {
    Start(MdTag),
    End(MdTag),
    Text(String),
    Code(String),
    Html(String),
    FootnoteRef(String),
    SoftBreak,
    HardBreak,
    Rule,
    TaskListMarker(bool),
}

/// Ghost model of a tag.
#[verifier::ext_equal]
pub enum GTag {
    Paragraph,
    Heading(u8),
    BlockQuote,
    CodeBlockFenced(Seq<char>),
    CodeBlockIndented,
    List(Option<u64>),
    Item,
    Table,
    TableHead,
    TableRow,
    TableCell,
    Emphasis,
    Strong,
    Strikethrough,
    Link(Seq<char>),
    Image(Seq<char>, Seq<char>),
    Other,
}

/// Ghost model of an event.
#[verifier::ext_equal]
pub enum GEvent {
    Start(GTag),
    End(GTag),
    Text(Seq<char>),
    Code(Seq<char>),
    Html(Seq<char>),
    FootnoteRef(Seq<char>),
    SoftBreak,
    HardBreak,
    Rule,
    TaskListMarker(bool),
}

impl View for MdTag {
    type V = GTag;

    open spec fn view(&self) -> GTag {
        match self {
            MdTag::Paragraph => GTag::Paragraph,
            MdTag::Heading(l) => GTag::Heading(*l),
            MdTag::BlockQuote => GTag::BlockQuote,
            MdTag::CodeBlock(MdCodeKind::Fenced(s)) => GTag::CodeBlockFenced(s@),
            MdTag::CodeBlock(MdCodeKind::Indented) => GTag::CodeBlockIndented,
            MdTag::List(o) => GTag::List(*o),
            MdTag::Item => GTag::Item,
            MdTag::Table => GTag::Table,
            MdTag::TableHead => GTag::TableHead,
            MdTag::TableRow => GTag::TableRow,
            MdTag::TableCell => GTag::TableCell,
            MdTag::Emphasis => GTag::Emphasis,
            MdTag::Strong => GTag::Strong,
            MdTag::Strikethrough => GTag::Strikethrough,
            MdTag::Link(u) => GTag::Link(u@),
            MdTag::Image(u, t) => GTag::Image(u@, t@),
            MdTag::Other => GTag::Other,
        }
    }
}

impl View for MdEvent {
    type V = GEvent;

    open spec fn view(&self) -> GEvent {
        match self {
            MdEvent::Start(t) => GEvent::Start(t@),
            MdEvent::End(t) => GEvent::End(t@),
            MdEvent::Text(s) => GEvent::Text(s@),
            MdEvent::Code(s) => GEvent::Code(s@),
            MdEvent::Html(s) => GEvent::Html(s@),
            MdEvent::FootnoteRef(s) => GEvent::FootnoteRef(s@),
            MdEvent::SoftBreak => GEvent::SoftBreak,
            MdEvent::HardBreak => GEvent::HardBreak,
            MdEvent::Rule => GEvent::Rule,
            MdEvent::TaskListMarker(b) => GEvent::TaskListMarker(*b),
        }
    }
}

/// One open inline style.
#[verifier::ext_equal]
pub enum GStyle {
    Strong,
    Em,
    Strike,
    Link(Seq<char>),
}

/// One open collection context on the reduction stack.
#[verifier::ext_equal]
pub enum GFrame {
    Para(Seq<GNode>),
    Heading(u8, Seq<GNode>),
    Blockquote(Seq<GNode>),
    Item(Seq<GNode>, Option<bool>),
    NestedList(ListType, Seq<GListItem>),
    Cell(Seq<GNode>),
    CodeBlock(Option<Seq<char>>, Seq<char>),
    ImageAlt(Seq<char>, Seq<char>, Seq<char>),
}

/// The reduction state: the builder, the stack of open contexts, the
/// inline style stack, and whether a top-level paragraph is open.
#[verifier::ext_equal]
pub struct GMd {
    pub b: GBuilder,
    pub frames: Seq<GFrame>,
    pub styles: Seq<GStyle>,
    pub in_para: bool,
}

pub open spec fn md_init() -> GMd {
    GMd { b: empty_builder(), frames: Seq::empty(), styles: Seq::empty(), in_para: false }
}

/// A text leaf wrapped in the open styles: the first style of the stack
/// is outermost, the most recently opened one sits nearest the leaf.
pub open spec fn wrap_styles(styles: Seq<GStyle>, content: Seq<char>) -> GNode
    decreases styles,
{
    if styles.len() == 0 {
        GNode::Text { content }
    } else {
        let inner = wrap_styles(styles.drop_first(), content);
        match styles[0] {
            GStyle::Strong => GNode::Strong { children: seq![inner] },
            GStyle::Em => GNode::Em { children: seq![inner] },
            GStyle::Strike => GNode::Strike { children: seq![inner] },
            GStyle::Link(url) => GNode::Link { url, children: seq![inner] },
        }
    }
}

/// The style stack with the most recent occurrence of a kind removed.
pub open spec fn remove_style(styles: Seq<GStyle>, kind: int) -> Seq<GStyle>
    decreases styles,
{
    if styles.len() == 0 {
        styles
    } else if style_kind(styles.last()) == kind {
        styles.drop_last()
    } else {
        remove_style(styles.drop_last(), kind).push(styles.last())
    }
}

pub open spec fn style_kind(s: GStyle) -> int {
    match s {
        GStyle::Strong => 0,
        GStyle::Em => 1,
        GStyle::Strike => 2,
        GStyle::Link(_) => 3,
    }
}

/// The inline nodes of a text run: inline math spans as math nodes, the
/// rest as styled leaves.
pub open spec fn inline_nodes(parts: Seq<GPart>, styles: Seq<GStyle>) -> Seq<GNode>
    decreases parts,
{
    if parts.len() == 0 {
        Seq::empty()
    } else {
        inline_nodes(parts.drop_last(), styles) + (match parts.last() {
            GPart::Math(c, d) => seq![GNode::Math { content: c, display: false }],
            GPart::Text(t) => if t.len() > 0 {
                seq![wrap_styles(styles, t)]
            } else {
                Seq::<GNode>::empty()
            },
        })
    }
}

/// Whether `$$` occurs anywhere in the text.
pub open spec fn has_dd(s: Seq<char>) -> bool
    decreases s,
{
    if s.len() < 2 {
        false
    } else {
        (s[0] == '$' && s[1] == '$') || has_dd(s.drop_first())
    }
}

/// Whether every node is a text leaf.
pub open spec fn all_text(ns: Seq<GNode>) -> bool
    decreases ns,
{
    if ns.len() == 0 {
        true
    } else {
        (ns.last() is Text) && all_text(ns.drop_last())
    }
}

/// The concatenated content of a run of text leaves.
pub open spec fn concat_text(ns: Seq<GNode>) -> Seq<char>
    decreases ns,
{
    if ns.len() == 0 {
        Seq::empty()
    } else {
        concat_text(ns.drop_last()) + (match ns.last() {
            GNode::Text { content } => content,
            _ => Seq::<char>::empty(),
        })
    }
}

/// Whether a closed paragraph of these children is retroactively a block
/// formula: all children are text leaves whose combined trimmed form is
/// exactly `$$...$$` with non-empty interior and no nested `$$`.
pub open spec fn para_is_block_math(ns: Seq<GNode>) -> bool {
    let t = trim_seq(concat_text(ns));
    &&& all_text(ns)
    &&& t.len() > 4
    &&& t[0] == '$'
    &&& t[1] == '$'
    &&& t[t.len() - 1] == '$'
    &&& t[t.len() - 2] == '$'
    &&& !has_dd(trim_seq(t.subrange(2, t.len() - 2)))
}

/// The formula content of such a paragraph.
pub open spec fn para_math_content(ns: Seq<GNode>) -> Seq<char> {
    let t = trim_seq(concat_text(ns));
    trim_seq(t.subrange(2, t.len() - 2))
}

/// Append one finished block node: into the innermost open frame that can
/// hold block content, or into the builder at top level.
pub open spec fn put_block(st: GMd, n: GNode) -> GMd {
    if st.frames.len() == 0 {
        GMd { b: with_block(st.b, n), ..st }
    } else {
        GMd { frames: frame_add(st.frames, n), ..st }
    }
}

/// Append one node to the children of the top frame.
pub open spec fn frame_add(frames: Seq<GFrame>, n: GNode) -> Seq<GFrame> {
    let top = frames.last();
    let top2 = match top {
        GFrame::Para(ns) => GFrame::Para(ns.push(n)),
        GFrame::Heading(l, ns) => GFrame::Heading(l, ns.push(n)),
        GFrame::Blockquote(ns) => GFrame::Blockquote(ns.push(n)),
        GFrame::Item(ns, c) => GFrame::Item(ns.push(n), c),
        GFrame::Cell(ns) => GFrame::Cell(ns.push(n)),
        other => other,
    };
    frames.drop_last().push(top2)
}

/// Append one inline node: into the top frame, or the builder's open
/// paragraph at top level.
pub open spec fn put_inline(st: GMd, n: GNode) -> GMd {
    if st.frames.len() == 0 {
        GMd { b: with_inline(st.b, n), ..st }
    } else {
        GMd { frames: frame_add(st.frames, n), ..st }
    }
}

/// Append several inline nodes in order.
pub open spec fn put_inlines(st: GMd, ns: Seq<GNode>) -> GMd
    decreases ns,
{
    if ns.len() == 0 {
        st
    } else {
        put_inline(put_inlines(st, ns.drop_last()), ns.last())
    }
}

/// The lower-case form of an ASCII letter sequence (other characters are
/// kept as they are).
pub open spec fn ascii_lower(s: Seq<char>) -> Seq<char>
    decreases s,
{
    if s.len() == 0 {
        Seq::empty()
    } else {
        ascii_lower(s.drop_last()).push(lower_char(s.last()))
    }
}

pub open spec fn lower_char(c: char) -> char {
    if 'A' <= c && c <= 'Z' {
        ((c as u32 + 32) as char)
    } else {
        c
    }
}

/// Drop trailing whitespace.
pub open spec fn trim_end_seq(s: Seq<char>) -> Seq<char> {
    let b = crate::mathsplit::trim_end_idx(s, s.len() as int);
    s.subrange(0, b)
}

/// A styled leaf: the text wrapped in the open styles (a bare text leaf
/// under no styles).
pub open spec fn styled_run(styles: Seq<GStyle>, t: Seq<char>) -> GNode {
    wrap_styles(styles, t)
}

/// Fold block-level split parts into the builder: formulas become block
/// math nodes, non-empty text parts styled inline runs.
pub open spec fn fold_block_parts(b: GBuilder, parts: Seq<GPart>, styles: Seq<GStyle>) -> GBuilder
    decreases parts,
{
    if parts.len() == 0 {
        b
    } else {
        let acc = fold_block_parts(b, parts.drop_last(), styles);
        match parts.last() {
            GPart::Math(c, d) => with_block(acc, GNode::Math { content: c, display: true }),
            GPart::Text(t) => if t.len() > 0 {
                with_inline(acc, styled_run(styles, t))
            } else {
                acc
            },
        }
    }
}

/// Fold inline split parts into the builder's open paragraph.
pub open spec fn fold_inline_parts(b: GBuilder, parts: Seq<GPart>, styles: Seq<GStyle>) -> GBuilder
    decreases parts,
{
    if parts.len() == 0 {
        b
    } else {
        let acc = fold_inline_parts(b, parts.drop_last(), styles);
        match parts.last() {
            GPart::Math(c, d) => with_inline(acc, GNode::Math { content: c, display: false }),
            GPart::Text(t) => if t.len() > 0 {
                with_inline(acc, styled_run(styles, t))
            } else {
                acc
            },
        }
    }
}

/// One tokenizer event applied to the reduction state.
pub open spec fn md_step(st: GMd, ev: GEvent) -> GMd {
    match ev {
        GEvent::Start(tag) => match tag {
            GTag::Paragraph => if st.frames.len() == 0 {
                GMd {
                    b: GBuilder { para: Some(Seq::empty()), ..flush_para(st.b) },
                    in_para: true,
                    ..st
                }
            } else {
                GMd { frames: st.frames.push(GFrame::Para(Seq::empty())), ..st }
            },
            GTag::Heading(l) => GMd {
                frames: st.frames.push(GFrame::Heading(l, Seq::empty())),
                ..st
            },
            GTag::BlockQuote => GMd {
                frames: st.frames.push(GFrame::Blockquote(Seq::empty())),
                ..st
            },
            GTag::CodeBlockFenced(lang) => GMd {
                frames: st.frames.push(
                    GFrame::CodeBlock(
                        if lang.len() == 0 {
                            None
                        } else {
                            Some(lang)
                        },
                        Seq::empty(),
                    ),
                ),
                ..st
            },
            GTag::CodeBlockIndented => GMd {
                frames: st.frames.push(GFrame::CodeBlock(None, Seq::empty())),
                ..st
            },
            GTag::List(o) => if st.frames.len() == 0 {
                match o {
                    None => GMd {
                        b: GBuilder {
                            list: Some((ListType::Bullet, Seq::empty())),
                            ..flush_list(flush_para(st.b))
                        },
                        ..st
                    },
                    Some(n) => if n == 1 {
                        GMd {
                            b: GBuilder {
                                list: Some((ListType::Ordered, Seq::empty())),
                                ..flush_list(flush_para(st.b))
                            },
                            ..st
                        }
                    } else {
                        st
                    },
                }
            } else {
                match o {
                    None => GMd {
                        frames: st.frames.push(GFrame::NestedList(ListType::Bullet, Seq::empty())),
                        ..st
                    },
                    Some(n) => if n == 1 {
                        GMd {
                            frames: st.frames.push(
                                GFrame::NestedList(ListType::Ordered, Seq::empty()),
                            ),
                            ..st
                        }
                    } else {
                        st
                    },
                }
            },
            GTag::Item => GMd { frames: st.frames.push(GFrame::Item(Seq::empty(), None)), ..st },
            GTag::Table => if st.frames.len() == 0 {
                GMd {
                    b: GBuilder { table: Some(Seq::empty()), ..flush_table(flush_para(st.b)) },
                    ..st
                }
            } else {
                st
            },
            GTag::TableHead => if st.frames.len() == 0 {
                GMd { b: GBuilder { row: Some(Seq::empty()), ..push_row(st.b) }, ..st }
            } else {
                st
            },
            GTag::TableRow => if st.frames.len() == 0 {
                GMd { b: GBuilder { row: Some(Seq::empty()), ..push_row(st.b) }, ..st }
            } else {
                st
            },
            GTag::TableCell => GMd { frames: st.frames.push(GFrame::Cell(Seq::empty())), ..st },
            GTag::Emphasis => GMd { styles: st.styles.push(GStyle::Em), ..st },
            GTag::Strong => GMd { styles: st.styles.push(GStyle::Strong), ..st },
            GTag::Strikethrough => GMd { styles: st.styles.push(GStyle::Strike), ..st },
            GTag::Link(u) => GMd { styles: st.styles.push(GStyle::Link(u)), ..st },
            GTag::Image(u, t) => GMd {
                frames: st.frames.push(GFrame::ImageAlt(u, t, Seq::empty())),
                ..st
            },
            GTag::Other => st,
        },
        GEvent::End(tag) => match tag {
            GTag::Paragraph => if st.frames.len() == 0 {
                match st.b.para {
                    Some(children) => if para_is_block_math(children) {
                        GMd {
                            b: GBuilder {
                                root: st.b.root.push(
                                    GNode::Math {
                                        content: para_math_content(children),
                                        display: true,
                                    },
                                ),
                                para: None,
                                ..st.b
                            },
                            in_para: false,
                            ..st
                        }
                    } else {
                        GMd { b: flush_para(st.b), in_para: false, ..st }
                    },
                    None => GMd { b: st.b, in_para: false, ..st },
                }
            } else {
                match st.frames.last() {
                    GFrame::Para(ns) => {
                        let popped = GMd { frames: st.frames.drop_last(), ..st };
                        if para_is_block_math(ns) {
                            put_block(
                                popped,
                                GNode::Math { content: para_math_content(ns), display: true },
                            )
                        } else if ns.len() > 0 {
                            put_block(popped, GNode::Paragraph { children: ns })
                        } else {
                            popped
                        }
                    },
                    _ => st,
                }
            },
            GTag::Heading(_) => if st.frames.len() > 0 {
                match st.frames.last() {
                    GFrame::Heading(l, ns) => {
                        let popped = GMd { frames: st.frames.drop_last(), ..st };
                        if popped.frames.len() == 0 {
                            GMd {
                                b: with_block(
                                    popped.b,
                                    GNode::Heading {
                                        level: crate::ast::clamp_level(l),
                                        children: ns,
                                    },
                                ),
                                ..popped
                            }
                        } else {
                            put_block(
                                popped,
                                GNode::Heading {
                                    level: crate::ast::clamp_level(l),
                                    children: ns,
                                },
                            )
                        }
                    },
                    _ => st,
                }
            } else {
                st
            },
            GTag::BlockQuote => if st.frames.len() > 0 {
                match st.frames.last() {
                    GFrame::Blockquote(ns) => {
                        let popped = GMd { frames: st.frames.drop_last(), ..st };
                        put_block(popped, GNode::Blockquote { children: ns })
                    },
                    _ => st,
                }
            } else {
                st
            },
            GTag::CodeBlockFenced(_) => end_code_block(st),
            GTag::CodeBlockIndented => end_code_block(st),
            GTag::List(_) => if st.frames.len() == 0 {
                GMd { b: flush_list(st.b), ..st }
            } else {
                match st.frames.last() {
                    GFrame::NestedList(t, items) => {
                        let popped = GMd { frames: st.frames.drop_last(), ..st };
                        put_block(popped, GNode::List { list_type: t, items })
                    },
                    _ => st,
                }
            },
            GTag::Item => if st.frames.len() > 0 {
                match st.frames.last() {
                    GFrame::Item(ns, c) => {
                        let parent = st.frames.drop_last();
                        let item = GListItem { children: ns, checked: c };
                        if parent.len() == 0 {
                            let b2 = match st.b.list {
                                Some((t, items)) => GBuilder {
                                    list: Some((t, items.push(item))),
                                    ..st.b
                                },
                                None => GBuilder {
                                    list: Some((ListType::Bullet, seq![item])),
                                    ..flush_list(flush_para(st.b))
                                },
                            };
                            GMd { b: b2, frames: parent, ..st }
                        } else {
                            match parent.last() {
                                GFrame::NestedList(t, items) => GMd {
                                    frames: parent.drop_last().push(
                                        GFrame::NestedList(t, items.push(item)),
                                    ),
                                    ..st
                                },
                                _ => GMd { frames: parent, ..st },
                            }
                        }
                    },
                    _ => st,
                }
            } else {
                st
            },
            GTag::Table => if st.frames.len() == 0 {
                GMd { b: flush_table(st.b), ..st }
            } else {
                st
            },
            GTag::TableHead => if st.frames.len() == 0 {
                GMd { b: push_row(st.b), ..st }
            } else {
                st
            },
            GTag::TableRow => if st.frames.len() == 0 {
                GMd { b: push_row(st.b), ..st }
            } else {
                st
            },
            GTag::TableCell => if st.frames.len() > 0 {
                match st.frames.last() {
                    GFrame::Cell(ns) => {
                        let parent = st.frames.drop_last();
                        if parent.len() == 0 {
                            let b2 = match st.b.row {
                                Some(cells) => GBuilder {
                                    row: Some(
                                        cells.push(
                                            crate::ast::GCell { children: ns, align: None },
                                        ),
                                    ),
                                    ..st.b
                                },
                                None => st.b,
                            };
                            GMd { b: b2, frames: parent, ..st }
                        } else {
                            put_block(
                                GMd { frames: parent, ..st },
                                GNode::TableCell {
                                    cell: crate::ast::GCell { children: ns, align: None },
                                },
                            )
                        }
                    },
                    _ => st,
                }
            } else {
                st
            },
            GTag::Emphasis => GMd { styles: remove_style(st.styles, 1), ..st },
            GTag::Strong => GMd { styles: remove_style(st.styles, 0), ..st },
            GTag::Strikethrough => GMd { styles: remove_style(st.styles, 2), ..st },
            GTag::Link(_) => GMd { styles: remove_style(st.styles, 3), ..st },
            GTag::Image(_, _) => if st.frames.len() > 0 {
                match st.frames.last() {
                    GFrame::ImageAlt(url, title, alt) => {
                        let popped = GMd { frames: st.frames.drop_last(), ..st };
                        let alt_opt = if alt.len() > 0 {
                            Some(alt)
                        } else if title.len() > 0 {
                            Some(title)
                        } else {
                            None
                        };
                        GMd {
                            b: with_block(
                                popped.b,
                                GNode::Image { url, width: None, height: None, alt: alt_opt },
                            ),
                            ..popped
                        }
                    },
                    _ => st,
                }
            } else {
                st
            },
            GTag::Other => st,
        },
        GEvent::Text(t) => if st.frames.len() > 0 && st.frames.last() is CodeBlock {
            match st.frames.last() {
                GFrame::CodeBlock(lang, content) => GMd {
                    frames: st.frames.drop_last().push(
                        GFrame::CodeBlock(lang, content + t + seq!['\n']),
                    ),
                    ..st
                },
                _ => st,
            }
        } else if st.frames.len() > 0 && st.frames.last() is ImageAlt {
            match st.frames.last() {
                GFrame::ImageAlt(u, ti, alt) => GMd {
                    frames: st.frames.drop_last().push(GFrame::ImageAlt(u, ti, alt + t)),
                    ..st
                },
                _ => st,
            }
        } else if st.frames.len() > 0 {
            put_inlines(st, inline_nodes(split_inline(t, true), st.styles))
        } else {
            if !st.in_para {
                match split_block_md(t) {
                    Some(parts) => GMd { b: fold_block_parts(st.b, parts, st.styles), ..st },
                    None => GMd {
                        b: fold_inline_parts(st.b, split_inline(t, true), st.styles),
                        ..st
                    },
                }
            } else {
                GMd { b: fold_inline_parts(st.b, split_inline(t, true), st.styles), ..st }
            }
        },
        GEvent::Code(c) => if st.frames.len() == 0 {
            GMd { b: with_inline(st.b, GNode::Code { content: c }), ..st }
        } else if st.frames.last() is CodeBlock || st.frames.last() is ImageAlt {
            st
        } else {
            GMd { frames: frame_add(st.frames, GNode::Code { content: c }), ..st }
        },
        GEvent::Html(_) => st,
        GEvent::FootnoteRef(_) => st,
        GEvent::SoftBreak => if st.frames.len() == 0 {
            GMd { b: with_inline(st.b, GNode::Text { content: seq![' '] }), ..st }
        } else {
            st
        },
        GEvent::HardBreak => if st.frames.len() == 0 {
            GMd { b: with_inline(st.b, GNode::Text { content: seq!['\n'] }), ..st }
        } else {
            st
        },
        GEvent::Rule => if st.frames.len() == 0 {
            GMd { b: with_block(st.b, GNode::HorizontalRule), ..st }
        } else {
            match st.frames.last() {
                GFrame::Blockquote(ns) => GMd {
                    frames: frame_add(st.frames, GNode::HorizontalRule),
                    ..st
                },
                _ => st,
            }
        },
        GEvent::TaskListMarker(bb) => if st.frames.len() > 0 {
            match st.frames.last() {
                GFrame::Item(ns, _) => GMd {
                    frames: st.frames.drop_last().push(GFrame::Item(ns, Some(bb))),
                    ..st
                },
                _ => st,
            }
        } else {
            st
        },
    }
}

/// A closed code-block frame becomes a code block, or a diagram node when
/// its language tag is `mermaid` in any letter case.
pub open spec fn end_code_block(st: GMd) -> GMd {
    if st.frames.len() > 0 {
        match st.frames.last() {
            GFrame::CodeBlock(lang, content) => {
                let popped = GMd { frames: st.frames.drop_last(), ..st };
                let c = trim_end_seq(content);
                let node = match lang {
                    Some(l) => if ascii_lower(l) == "mermaid"@ {
                        GNode::Mermaid { content: c }
                    } else {
                        GNode::CodeBlock { language: Some(l), content: c }
                    },
                    None => GNode::CodeBlock { language: None, content: c },
                };
                put_block(popped, node)
            },
            _ => st,
        }
    } else {
        st
    }
}

/// All events applied in order.
pub open spec fn md_fold(st: GMd, evs: Seq<GEvent>) -> GMd
    decreases evs.len(),
{
    if evs.len() == 0 {
        st
    } else {
        md_fold(md_step(st, evs[0]), evs.drop_first())
    }
}

/// The document an event stream denotes.
pub open spec fn md_result(evs: Seq<GEvent>) -> Seq<GNode> {
    let st = md_fold(md_init(), evs);
    flush_table(flush_list(flush_para(st.b))).root
}

/// The event stream that the tokenizer yields for a Markdown text, with
/// tables, footnotes, strikethrough, task lists and smart punctuation
/// enabled. Deterministic in the input text alone.
pub uninterp spec fn md_events_of(s: Seq<char>) -> Seq<GEvent>;

/// Declares the tokenizer's event type so its values can be handled.
#[verifier::external_type_specification]
#[verifier::external_body]
pub struct ExPdEvent<'a>(pulldown_cmark::Event<'a>);

/// Declares the tokenizer's tag type so its values can be handled.
#[verifier::external_type_specification]
#[verifier::external_body]
pub struct ExPdTag<'a>(pulldown_cmark::Tag<'a>);

/// Relies on pulldown_cmark::Tag: moves the span-level variants' fields
/// into the plain tag type, everything else to `Other`.
#[verifier::external_body]
fn conv_span_tag(t: pulldown_cmark::Tag<'_>) -> MdTag {
    match t {
        pulldown_cmark::Tag::Emphasis => MdTag::Emphasis,
        pulldown_cmark::Tag::Strong => MdTag::Strong,
        pulldown_cmark::Tag::Strikethrough => MdTag::Strikethrough,
        pulldown_cmark::Tag::Link(_, u, _) => MdTag::Link(u.into_string()),
        pulldown_cmark::Tag::Image(_, u, t) => MdTag::Image(u.into_string(), t.into_string()),
        _ => MdTag::Other,
    }
}

/// Relies on pulldown_cmark::Tag: moves the block-level variants' fields
/// into the plain tag type, one arm each.
#[verifier::external_body]
fn conv_tag(t: pulldown_cmark::Tag<'_>) -> MdTag {
    match t {
        pulldown_cmark::Tag::Paragraph => MdTag::Paragraph,
        pulldown_cmark::Tag::Heading(l, _, _) => MdTag::Heading(l as u8),
        pulldown_cmark::Tag::BlockQuote => MdTag::BlockQuote,
        pulldown_cmark::Tag::CodeBlock(pulldown_cmark::CodeBlockKind::Indented) => MdTag::CodeBlock(MdCodeKind::Indented),
        pulldown_cmark::Tag::CodeBlock(pulldown_cmark::CodeBlockKind::Fenced(l)) => MdTag::CodeBlock(MdCodeKind::Fenced(l.into_string())),
        pulldown_cmark::Tag::List(o) => MdTag::List(o),
        pulldown_cmark::Tag::Item => MdTag::Item,
        pulldown_cmark::Tag::Table(_) => MdTag::Table,
        pulldown_cmark::Tag::TableHead => MdTag::TableHead,
        pulldown_cmark::Tag::TableRow => MdTag::TableRow,
        pulldown_cmark::Tag::TableCell => MdTag::TableCell,
        other => conv_span_tag(other),
    }
}

/// Relies on pulldown_cmark::Event: moves each variant's fields into the
/// plain event type, one arm each.
#[verifier::external_body]
fn conv_event(e: pulldown_cmark::Event<'_>) -> MdEvent {
    match e {
        pulldown_cmark::Event::Start(t) => MdEvent::Start(conv_tag(t)),
        pulldown_cmark::Event::End(t) => MdEvent::End(conv_tag(t)),
        pulldown_cmark::Event::Text(s) => MdEvent::Text(s.into_string()),
        pulldown_cmark::Event::Code(s) => MdEvent::Code(s.into_string()),
        pulldown_cmark::Event::Html(s) => MdEvent::Html(s.into_string()),
        pulldown_cmark::Event::FootnoteReference(s) => MdEvent::FootnoteRef(s.into_string()),
        pulldown_cmark::Event::SoftBreak => MdEvent::SoftBreak,
        pulldown_cmark::Event::HardBreak => MdEvent::HardBreak,
        pulldown_cmark::Event::Rule => MdEvent::Rule,
        pulldown_cmark::Event::TaskListMarker(b) => MdEvent::TaskListMarker(b),
    }
}

/// Relies on pulldown_cmark::Parser::new_ext: the block/inline event
/// stream of the text, with tables, footnotes, strikethrough, task lists
/// and smart punctuation enabled; it depends on the input text alone.
#[verifier::external_body]
fn md_tokenize(input: &str) -> (r: Vec<MdEvent>)
    ensures
        view_events(r@) == md_events_of(input@),
{
    let mut opts = pulldown_cmark::Options::empty();
    opts.insert(pulldown_cmark::Options::ENABLE_STRIKETHROUGH);
    opts.insert(pulldown_cmark::Options::ENABLE_TABLES);
    opts.insert(pulldown_cmark::Options::ENABLE_FOOTNOTES);
    opts.insert(pulldown_cmark::Options::ENABLE_TASKLISTS);
    opts.insert(pulldown_cmark::Options::ENABLE_SMART_PUNCTUATION);
    let mut out: Vec<MdEvent> = Vec::new();
    for ev in pulldown_cmark::Parser::new_ext(input, opts) {
        out.push(conv_event(ev));
    }
    out
}

pub open spec fn view_events(s: Seq<MdEvent>) -> Seq<GEvent>
    decreases s,
{
    if s.len() == 0 {
        Seq::empty()
    } else {
        view_events(s.drop_last()).push(s.last()@)
    }
}

pub proof fn lemma_view_events_len(s: Seq<MdEvent>)
    ensures
        view_events(s).len() == s.len(),
    decreases s.len(),
{
    if s.len() > 0 {
        lemma_view_events_len(s.drop_last());
        assert(view_events(s) == view_events(s.drop_last()).push(s.last()@));
    }
}

pub proof fn lemma_view_events_index(s: Seq<MdEvent>, i: int)
    requires
        0 <= i < s.len(),
    ensures
        view_events(s)[i] == s[i]@,
    decreases s.len(),
{
    lemma_view_events_len(s);
    lemma_view_events_len(s.drop_last());
    assert(view_events(s) == view_events(s.drop_last()).push(s.last()@));
    if i < s.len() - 1 {
        lemma_view_events_index(s.drop_last(), i);
        assert(s.drop_last()[i] == s[i]);
    }
}

/// One open collection context, executable form.
#[derive(Debug)]
pub enum Frame {
    Para(Vec<ASTNode>),
    Heading(u8, Vec<ASTNode>),
    Blockquote(Vec<ASTNode>),
    Item(Vec<ASTNode>, Option<bool>),
    NestedList(ListType, Vec<crate::ast::ListItemNode>),
    Cell(Vec<ASTNode>),
    CodeBlock(Option<String>, Vec<char>),
    ImageAlt(String, String, Vec<char>),
}

impl View for Frame {
    type V = GFrame;

    open spec fn view(&self) -> GFrame {
        match self {
            Frame::Para(ns) => GFrame::Para(crate::ast::view_nodes(ns@)),
            Frame::Heading(l, ns) => GFrame::Heading(*l, crate::ast::view_nodes(ns@)),
            Frame::Blockquote(ns) => GFrame::Blockquote(crate::ast::view_nodes(ns@)),
            Frame::Item(ns, c) => GFrame::Item(crate::ast::view_nodes(ns@), *c),
            Frame::NestedList(t, items) => GFrame::NestedList(
                *t,
                crate::ast::view_items(items@),
            ),
            Frame::Cell(ns) => GFrame::Cell(crate::ast::view_nodes(ns@)),
            Frame::CodeBlock(l, cs) => GFrame::CodeBlock(crate::ast::view_opt_str(*l), cs@),
            Frame::ImageAlt(u, t, a) => GFrame::ImageAlt(u@, t@, a@),
        }
    }
}

pub open spec fn view_frames(s: Seq<Frame>) -> Seq<GFrame>
    decreases s,
{
    if s.len() == 0 {
        Seq::empty()
    } else {
        view_frames(s.drop_last()).push(s.last()@)
    }
}

pub proof fn lemma_view_frames_len(s: Seq<Frame>)
    ensures
        view_frames(s).len() == s.len(),
    decreases s.len(),
{
    if s.len() > 0 {
        lemma_view_frames_len(s.drop_last());
        assert(view_frames(s) == view_frames(s.drop_last()).push(s.last()@));
    }
}

pub proof fn lemma_view_frames_push(s: Seq<Frame>, x: Frame)
    ensures
        view_frames(s.push(x)) == view_frames(s).push(x@),
{
    assert(s.push(x).drop_last() =~= s);
    assert(s.push(x).last() == x);
}

pub proof fn lemma_view_frames_last(s: Seq<Frame>)
    requires
        s.len() > 0,
    ensures
        view_frames(s).last() == s.last()@,
        view_frames(s).drop_last() == view_frames(s.drop_last()),
{
    lemma_view_frames_len(s);
    assert(view_frames(s) == view_frames(s.drop_last()).push(s.last()@));
    lemma_view_frames_len(s.drop_last());
    assert(view_frames(s).drop_last() =~= view_frames(s.drop_last()));
}

/// One open inline style, executable form.
#[derive(Debug)]
pub enum StyleTok {
    Strong,
    Em,
    Strike,
    Link(String),
}

impl View for StyleTok {
    type V = GStyle;

    open spec fn view(&self) -> GStyle {
        match self {
            StyleTok::Strong => GStyle::Strong,
            StyleTok::Em => GStyle::Em,
            StyleTok::Strike => GStyle::Strike,
            StyleTok::Link(u) => GStyle::Link(u@),
        }
    }
}

pub open spec fn view_styles(s: Seq<StyleTok>) -> Seq<GStyle>
    decreases s,
{
    if s.len() == 0 {
        Seq::empty()
    } else {
        view_styles(s.drop_last()).push(s.last()@)
    }
}

pub proof fn lemma_view_styles_len(s: Seq<StyleTok>)
    ensures
        view_styles(s).len() == s.len(),
    decreases s.len(),
{
    if s.len() > 0 {
        lemma_view_styles_len(s.drop_last());
        assert(view_styles(s) == view_styles(s.drop_last()).push(s.last()@));
    }
}

pub proof fn lemma_view_styles_push(s: Seq<StyleTok>, x: StyleTok)
    ensures
        view_styles(s.push(x)) == view_styles(s).push(x@),
{
    assert(s.push(x).drop_last() =~= s);
    assert(s.push(x).last() == x);
}

pub proof fn lemma_view_styles_index(s: Seq<StyleTok>, i: int)
    requires
        0 <= i < s.len(),
    ensures
        view_styles(s)[i] == s[i]@,
    decreases s.len(),
{
    lemma_view_styles_len(s);
    lemma_view_styles_len(s.drop_last());
    assert(view_styles(s) == view_styles(s.drop_last()).push(s.last()@));
    if i < s.len() - 1 {
        lemma_view_styles_index(s.drop_last(), i);
        assert(s.drop_last()[i] == s[i]);
    }
}

/// The combined reduction state as a model value.
pub open spec fn md_st(b: GBuilder, frames: Seq<GFrame>, styles: Seq<GStyle>, in_para: bool) -> GMd {
    GMd { b, frames, styles, in_para }
}

/// Append a node to the children of the top frame.
fn frame_add_x(frames: &mut Vec<Frame>, n: ASTNode)
    requires
        old(frames)@.len() > 0,
    ensures
        view_frames(final(frames)@) == frame_add(view_frames(old(frames)@), n@),
{
    let ghost pre = frames@;
    let ghost nv = n@;
    let top = match frames.pop() {
        Some(t) => t,
        None => {
            proof {
                assert(false);
            }
            Frame::Para(Vec::new())
        },
    };
    proof {
        lemma_view_frames_last(pre);
    }
    let top2 = match top {
        Frame::Para(mut ns) => {
            let ghost pns = ns@;
            ns.push(n);
            proof {
                crate::ast::lemma_view_nodes_push(pns, ns@.last());
                assert(ns@ =~= pns.push(ns@.last()));
            }
            Frame::Para(ns)
        },
        Frame::Heading(l, mut ns) => {
            let ghost pns = ns@;
            ns.push(n);
            proof {
                crate::ast::lemma_view_nodes_push(pns, ns@.last());
                assert(ns@ =~= pns.push(ns@.last()));
            }
            Frame::Heading(l, ns)
        },
        Frame::Blockquote(mut ns) => {
            let ghost pns = ns@;
            ns.push(n);
            proof {
                crate::ast::lemma_view_nodes_push(pns, ns@.last());
                assert(ns@ =~= pns.push(ns@.last()));
            }
            Frame::Blockquote(ns)
        },
        Frame::Item(mut ns, c) => {
            let ghost pns = ns@;
            ns.push(n);
            proof {
                crate::ast::lemma_view_nodes_push(pns, ns@.last());
                assert(ns@ =~= pns.push(ns@.last()));
            }
            Frame::Item(ns, c)
        },
        Frame::Cell(mut ns) => {
            let ghost pns = ns@;
            ns.push(n);
            proof {
                crate::ast::lemma_view_nodes_push(pns, ns@.last());
                assert(ns@ =~= pns.push(ns@.last()));
            }
            Frame::Cell(ns)
        },
        other => other,
    };
    let ghost t2v = top2@;
    frames.push(top2);
    proof {
        lemma_view_frames_push(pre.drop_last(), frames@.last());
        assert(frames@ =~= pre.drop_last().push(frames@.last()));
        assert(view_frames(frames@) =~= frame_add(view_frames(pre), nv));
    }
}

/// Append a finished block node into the innermost open frame, or the
/// builder at top level.
fn put_block_x(b: &mut ASTBuilder, frames: &mut Vec<Frame>, n: ASTNode)
    ensures
        md_st(final(b)@, view_frames(final(frames)@), Seq::empty(), false) == put_block(
            md_st(old(b)@, view_frames(old(frames)@), Seq::empty(), false),
            n@,
        ),
{
    proof {
        lemma_view_frames_len(frames@);
    }
    if frames.len() == 0 {
        b.add_block_node(n);
    } else {
        frame_add_x(frames, n);
    }
}

/// Append an inline node into the top frame, or the builder's paragraph.
fn put_inline_x(b: &mut ASTBuilder, frames: &mut Vec<Frame>, n: ASTNode)
    ensures
        md_st(final(b)@, view_frames(final(frames)@), Seq::empty(), false) == put_inline(
            md_st(old(b)@, view_frames(old(frames)@), Seq::empty(), false),
            n@,
        ),
{
    proof {
        lemma_view_frames_len(frames@);
    }
    if frames.len() == 0 {
        b.add_inline_node(n);
    } else {
        frame_add_x(frames, n);
    }
}

/// A text leaf wrapped in the open styles from position `i` on.
fn wrap_styles_x(styles: &Vec<StyleTok>, i: usize, content: String) -> (r: ASTNode)
    requires
        i <= styles@.len(),
    ensures
        r@ == wrap_styles(view_styles(styles@).skip(i as int), content@),
    decreases styles@.len() - i,
{
    let ghost sv = view_styles(styles@);
    proof {
        lemma_view_styles_len(styles@);
    }
    if i >= styles.len() {
        proof {
            assert(sv.skip(i as int) =~= Seq::<GStyle>::empty());
        }
        ASTNode::Text(crate::ast::TextNode { content })
    } else {
        let inner = wrap_styles_x(styles, i + 1, content);
        let ghost iv = inner@;
        let mut ch: Vec<ASTNode> = Vec::new();
        ch.push(inner);
        proof {
            crate::ast::lemma_view_nodes_push(Seq::<ASTNode>::empty(), ch@[0]);
            assert(Seq::<ASTNode>::empty().push(ch@[0]) =~= ch@);
            assert(crate::ast::view_nodes(ch@) =~= seq![iv]);
            lemma_view_styles_index(styles@, i as int);
            assert(sv.skip(i as int)[0] == sv[i as int]);
            assert(sv.skip(i as int).drop_first() =~= sv.skip(i as int + 1));
        }
        match &styles[i] {
            StyleTok::Strong => ASTNode::Strong(crate::ast::StrongNode { children: ch }),
            StyleTok::Em => ASTNode::Em(crate::ast::EmNode { children: ch }),
            StyleTok::Strike => ASTNode::Strike(crate::ast::StrikeNode { children: ch }),
            StyleTok::Link(u) => ASTNode::Link(
                crate::ast::LinkNode { url: u.clone(), children: ch },
            ),
        }
    }
}

proof fn lemma_remove_style_at(s: Seq<GStyle>, k: int, idx: int)
    requires
        0 <= idx < s.len(),
        style_kind(s[idx]) == k,
        forall|j: int| idx < j < s.len() ==> style_kind(s[j]) != k,
    ensures
        remove_style(s, k) == s.remove(idx),
    decreases s.len(),
{
    if idx == s.len() - 1 {
        assert(remove_style(s, k) == s.drop_last());
        assert(s.drop_last() =~= s.remove(idx));
    } else {
        assert(style_kind(s.last()) != k);
        assert(s.drop_last()[idx] == s[idx]);
        assert(forall|j: int| idx < j < s.len() - 1 ==> s.drop_last()[j] == s[j]);
        lemma_remove_style_at(s.drop_last(), k, idx);
        assert(remove_style(s, k) == s.drop_last().remove(idx).push(s.last()));
        assert(s.drop_last().remove(idx).push(s.last()) =~= s.remove(idx));
    }
}

proof fn lemma_remove_style_none(s: Seq<GStyle>, k: int)
    requires
        forall|j: int| 0 <= j < s.len() ==> style_kind(#[trigger] s[j]) != k,
    ensures
        remove_style(s, k) == s,
    decreases s.len(),
{
    if s.len() > 0 {
        assert(style_kind(s.last()) != k);
        assert(forall|j: int| 0 <= j < s.len() - 1 ==> s.drop_last()[j] == s[j]);
        lemma_remove_style_none(s.drop_last(), k);
        assert(s.drop_last().push(s.last()) =~= s);
    }
}

/// The kind code of a style token.
fn style_kind_x(s: &StyleTok) -> (r: u8)
    ensures
        r as int == style_kind(s@),
{
    match s {
        StyleTok::Strong => 0,
        StyleTok::Em => 1,
        StyleTok::Strike => 2,
        StyleTok::Link(_) => 3,
    }
}

/// Drop the most recently opened style of a kind, if any is open.
fn remove_style_x(styles: &mut Vec<StyleTok>, kind: u8)
    ensures
        view_styles(final(styles)@) == remove_style(view_styles(old(styles)@), kind as int),
{
    let ghost sv = view_styles(old(styles)@);
    proof {
        lemma_view_styles_len(styles@);
    }
    let n = styles.len();
    let mut j: usize = n;
    while j > 0
        invariant
            j <= n,
            n == styles@.len(),
            styles@ == old(styles)@,
            sv == view_styles(styles@),
            sv.len() == n,
            forall|q: int| j <= q < n ==> style_kind(#[trigger] sv[q]) != kind as int,
        decreases j,
    {
        proof {
            lemma_view_styles_index(styles@, j - 1);
        }
        if style_kind_x(&styles[j - 1]) == kind {
            let ghost idx = j - 1;
            styles.remove(j - 1);
            proof {
                lemma_remove_style_at(sv, kind as int, idx);
                lemma_view_styles_remove(old(styles)@, idx);
            }
            return ;
        }
        j -= 1;
    }
    proof {
        lemma_remove_style_none(sv, kind as int);
    }
}

proof fn lemma_view_styles_remove(s: Seq<StyleTok>, i: int)
    requires
        0 <= i < s.len(),
    ensures
        view_styles(s.remove(i)) == view_styles(s).remove(i),
    decreases s.len(),
{
    lemma_view_styles_len(s);
    lemma_view_styles_len(s.remove(i));
    assert forall|q: int| 0 <= q < s.len() - 1 implies view_styles(s.remove(i))[q] == view_styles(
        s,
    ).remove(i)[q] by {
        lemma_view_styles_index(s.remove(i), q);
        if q < i {
            lemma_view_styles_index(s, q);
            assert(s.remove(i)[q] == s[q]);
        } else {
            lemma_view_styles_index(s, q + 1);
            assert(s.remove(i)[q] == s[q + 1]);
        }
    }
    assert(view_styles(s.remove(i)) =~= view_styles(s).remove(i));
}

/// Whether `$$` occurs anywhere in the text.
fn has_dd_x(cs: &Vec<char>) -> (r: bool)
    ensures
        r == has_dd(cs@),
{
    let n = cs.len();
    let mut i: usize = 0;
    proof {
        assert(cs@.skip(0) =~= cs@);
    }
    while i < n && i < n - 1
        invariant
            i <= n,
            n == cs@.len(),
            has_dd(cs@) == has_dd(cs@.skip(i as int)),
        decreases n - i,
    {
        proof {
            assert(cs@.skip(i as int)[0] == cs@[i as int]);
            assert(cs@.skip(i as int)[1] == cs@[i as int + 1]);
            assert(cs@.skip(i as int).drop_first() =~= cs@.skip(i as int + 1));
        }
        if cs[i] == '$' && cs[i + 1] == '$' {
            return true;
        }
        i += 1;
    }
    proof {
        assert(cs@.skip(i as int).len() < 2);
    }
    false
}

proof fn lemma_all_text_index(s: Seq<GNode>, i: int)
    requires
        0 <= i < s.len(),
        all_text(s),
    ensures
        s[i] is Text,
    decreases s.len(),
{
    if i < s.len() - 1 {
        assert(s.drop_last()[i] == s[i]);
        lemma_all_text_index(s.drop_last(), i);
    }
}

/// If the paragraph children are all text leaves spelling one `$$...$$`
/// block formula, its content; absent otherwise.
#[verifier::rlimit(100)]
fn check_para_math(children: &Vec<ASTNode>) -> (r: Option<String>)
    ensures
        match r {
            Some(m) => para_is_block_math(crate::ast::view_nodes(children@)) && m@
                == para_math_content(crate::ast::view_nodes(children@)),
            None => !para_is_block_math(crate::ast::view_nodes(children@)),
        },
{
    let ghost gv = crate::ast::view_nodes(children@);
    let n = children.len();
    let mut text: Vec<char> = Vec::new();
    let mut k: usize = 0;
    proof {
        crate::ast::lemma_view_nodes_len(children@);
        assert(gv.take(0) =~= Seq::<GNode>::empty());
    }
    while k < n
        invariant
            k <= n,
            n == children@.len(),
            gv == crate::ast::view_nodes(children@),
            gv.len() == n,
            all_text(gv.take(k as int)),
            text@ == concat_text(gv.take(k as int)),
        decreases n - k,
    {
        proof {
            crate::ast::lemma_view_nodes_index(children@, k as int);
            assert(gv.take(k as int + 1).drop_last() =~= gv.take(k as int));
            assert(gv.take(k as int + 1).last() == gv[k as int]);
        }
        match &children[k] {
            ASTNode::Text(t) => {
                let tc = crate::json::str_to_chars(t.content.as_str());
                let ghost pre = text@;
                let m = tc.len();
                let mut q: usize = 0;
                while q < m
                    invariant
                        q <= m,
                        m == tc@.len(),
                        text@ == pre + tc@.take(q as int),
                    decreases m - q,
                {
                    text.push(tc[q]);
                    proof {
                        assert(pre + tc@.take(q as int + 1) =~= (pre + tc@.take(q as int)).push(
                            tc@[q as int],
                        ));
                    }
                    q += 1;
                }
                proof {
                    assert(tc@.take(m as int) =~= tc@);
                }
            },
            _ => {
                proof {
                    if all_text(gv) {
                        lemma_all_text_index(gv, k as int);
                    }
                }
                return None;
            },
        }
        k += 1;
    }
    proof {
        assert(gv.take(n as int) =~= gv);
    }
    let (ta, tb) = crate::mathsplit::trim_bounds(&text, 0, text.len());
    proof {
        assert(text@.subrange(0, text@.len() as int) =~= text@);
    }
    if ta >= tb {
        return None;
    }
    let tlen = tb - ta;
    if !(tlen > 4) {
        return None;
    }
    if !(text[ta] == '$' && text[ta + 1] == '$' && text[tb - 1] == '$' && text[tb - 2] == '$') {
        return None;
    }
    let ghost t = trim_seq(text@);
    proof {
        assert(t == text@.subrange(ta as int, tb as int));
        assert(t[0] == text@[ta as int]);
        assert(t[1] == text@[ta as int + 1]);
        assert(t[t.len() - 1] == text@[tb as int - 1]);
        assert(t[t.len() - 2] == text@[tb as int - 2]);
    }
    let (ia, ib) = crate::mathsplit::trim_bounds(&text, ta + 2, tb - 2);
    proof {
        assert(text@.subrange(ta as int + 2, tb as int - 2) =~= t.subrange(2, t.len() - 2));
    }
    if ia >= ib {
        proof {
            assert(trim_seq(t.subrange(2, t.len() - 2)).len() == 0);
            assert(!has_dd(Seq::<char>::empty()));
            assert(trim_seq(t.subrange(2, t.len() - 2)) =~= Seq::<char>::empty());
        }
        let empty: Vec<char> = Vec::new();
        return Some(crate::json::chars_to_string(&empty));
    }
    let inner = crate::jsonparse::copy_range(&text, ia, ib);
    proof {
        assert(inner@ == trim_seq(t.subrange(2, t.len() - 2)));
    }
    if has_dd_x(&inner) {
        return None;
    }
    Some(crate::json::chars_to_string(&inner))
}

/// Lower-case one ASCII letter.
fn lower_char_x(c: char) -> (r: char)
    ensures
        r == lower_char(c),
{
    let u = c as u32;
    if 65 <= u && u <= 90 {
        proof {
            assert('A' <= c && c <= 'Z');
        }
        match crate::jsonparse::char_from_u32(u + 32) {
            Some(l) => l,
            None => {
                proof {
                    assert(false);
                }
                c
            },
        }
    } else {
        proof {
            assert(!('A' <= c && c <= 'Z'));
        }
        c
    }
}

/// Whether a language tag spells `mermaid` in any letter case.
fn is_mermaid_lang(l: &String) -> (r: bool)
    ensures
        r == (ascii_lower(l@) == "mermaid"@),
{
    let cs = crate::json::str_to_chars(l.as_str());
    let n = cs.len();
    let mut low: Vec<char> = Vec::new();
    let mut k: usize = 0;
    proof {
        assert(cs@.take(0) =~= Seq::<char>::empty());
        assert(low@ =~= ascii_lower(cs@.take(0)));
    }
    while k < n
        invariant
            k <= n,
            n == cs@.len(),
            cs@ == l@,
            low@ == ascii_lower(cs@.take(k as int)),
        decreases n - k,
    {
        proof {
            assert(cs@.take(k as int + 1).drop_last() =~= cs@.take(k as int));
            assert(cs@.take(k as int + 1).last() == cs@[k as int]);
        }
        low.push(lower_char_x(cs[k]));
        k += 1;
    }
    proof {
        assert(cs@.take(n as int) =~= cs@);
    }
    let lowered = crate::json::chars_to_string(&low);
    let target = String::from_str("mermaid");
    lowered.eq(&target)
}

/// Drop trailing whitespace from a character buffer.
fn trim_end_x(cs: &Vec<char>) -> (r: Vec<char>)
    ensures
        r@ == trim_end_seq(cs@),
{
    let mut tb: usize = cs.len();
    while tb > 0 && is_ws_c(cs[tb - 1])
        invariant
            tb <= cs@.len(),
            crate::mathsplit::trim_end_idx(cs@, cs@.len() as int) == crate::mathsplit::trim_end_idx(
                cs@,
                tb as int,
            ),
        decreases tb,
    {
        tb -= 1;
    }
    proof {
        assert(crate::mathsplit::trim_end_idx(cs@, tb as int) == tb as int);
    }
    crate::jsonparse::copy_range(cs, 0, tb)
}

fn is_ws_c(c: char) -> (r: bool)
    ensures
        r == crate::jsonparse::is_json_ws(c),
{
    c == ' ' || c == '\t' || c == '\n' || c == '\r'
}

proof fn lemma_put_inlines_snoc(st: GMd, s: Seq<GNode>, x: GNode)
    ensures
        put_inlines(st, s.push(x)) == put_inline(put_inlines(st, s), x),
{
    assert(s.push(x).drop_last() =~= s);
    assert(s.push(x).last() == x);
}

/// Process a text run in an inline frame context.
fn text_in_frames(
    b: &mut ASTBuilder,
    frames: &mut Vec<Frame>,
    styles: &Vec<StyleTok>,
    t: &String,
    Ghost(ip): Ghost<bool>,
)
    ensures
        md_st(final(b)@, view_frames(final(frames)@), view_styles(styles@), ip) == put_inlines(
            md_st(old(b)@, view_frames(old(frames)@), view_styles(styles@), ip),
            inline_nodes(split_inline(t@, true), view_styles(styles@)),
        ),
{
    let ghost st0 = md_st(old(b)@, view_frames(old(frames)@), view_styles(styles@), ip);
    let ghost sv = view_styles(styles@);
    let cs = crate::json::str_to_chars(t.as_str());
    let parts = crate::mathsplit::split_inline_chars(&cs, true);
    let ghost pv = crate::mathsplit::view_parts(parts@);
    let n = parts.len();
    let mut k: usize = 0;
    proof {
        crate::mathsplit::lemma_view_parts_len(parts@);
        assert(pv.take(0) =~= Seq::<GPart>::empty());
        assert(inline_nodes(pv.take(0), sv) =~= Seq::<GNode>::empty());
    }
    while k < n
        invariant
            k <= n,
            n == parts@.len(),
            pv == crate::mathsplit::view_parts(parts@),
            pv.len() == n,
            sv == view_styles(styles@),
            md_st(b@, view_frames(frames@), sv, ip) == put_inlines(
                st0,
                inline_nodes(pv.take(k as int), sv),
            ),
        decreases n - k,
    {
        let ghost cur = md_st(b@, view_frames(frames@), sv, ip);
        proof {
            crate::mathsplit::lemma_view_parts_index(parts@, k as int);
            assert(pv.take(k as int + 1).drop_last() =~= pv.take(k as int));
            assert(pv.take(k as int + 1).last() == pv[k as int]);
        }
        let p = crate::mathsplit::part_clone(&parts, k);
        match p {
            crate::mathsplit::TextPart::Math(c, _) => {
                let node = ASTNode::Math(crate::ast::MathNode { content: c, display: false });
                let ghost nv = node@;
                let ghost tgt = put_inline(cur, nv);
                proof {
                    lemma_put_inlines_snoc(st0, inline_nodes(pv.take(k as int), sv), nv);
                }
                put_inline_x(b, frames, node);
                proof {
                    let p0 = put_inline(md_st(cur.b, cur.frames, Seq::empty(), false), nv);
                    assert(p0.b == tgt.b);
                    assert(p0.frames == tgt.frames);
                    assert(tgt.styles == sv);
                    assert(inline_nodes(pv.take(k as int + 1), sv) =~= inline_nodes(
                        pv.take(k as int),
                        sv,
                    ).push(nv));
                    assert(md_st(b@, view_frames(frames@), sv, ip) =~= put_inlines(
                        st0,
                        inline_nodes(pv.take(k as int + 1), sv),
                    ));
                }
            },
            crate::mathsplit::TextPart::Text(tx) => {
                if tx.as_str().is_empty() {
                    proof {
                        assert(inline_nodes(pv.take(k as int + 1), sv) =~= inline_nodes(
                            pv.take(k as int),
                            sv,
                        ));
                    }
                } else {
                    let node = wrap_styles_x(styles, 0, tx);
                    let ghost nv = node@;
                    let ghost tgt = put_inline(cur, nv);
                    proof {
                        assert(sv.skip(0) =~= sv);
                        lemma_put_inlines_snoc(st0, inline_nodes(pv.take(k as int), sv), nv);
                    }
                    put_inline_x(b, frames, node);
                    proof {
                        let p0 = put_inline(md_st(cur.b, cur.frames, Seq::empty(), false), nv);
                        assert(p0.b == tgt.b);
                        assert(p0.frames == tgt.frames);
                        assert(tgt.styles == sv);
                        assert(inline_nodes(pv.take(k as int + 1), sv) =~= inline_nodes(
                            pv.take(k as int),
                            sv,
                        ).push(nv));
                        assert(md_st(b@, view_frames(frames@), sv, ip) =~= put_inlines(
                            st0,
                            inline_nodes(pv.take(k as int + 1), sv),
                        ));
                    }
                }
            },
        }
        k += 1;
    }
    proof {
        assert(pv.take(n as int) =~= pv);
    }
}

/// Process a text run at the builder level, block-math spans included.
fn text_at_top(b: &mut ASTBuilder, styles: &Vec<StyleTok>, t: &String, in_para: bool)
    ensures
        final(b)@ == (if !in_para {
            match split_block_md(t@) {
                Some(parts) => fold_block_parts(old(b)@, parts, view_styles(styles@)),
                None => fold_inline_parts(
                    old(b)@,
                    split_inline(t@, true),
                    view_styles(styles@),
                ),
            }
        } else {
            fold_inline_parts(old(b)@, split_inline(t@, true), view_styles(styles@))
        }),
{
    let ghost sv = view_styles(styles@);
    let cs = crate::json::str_to_chars(t.as_str());
    if !in_para {
        match crate::mathsplit::split_block_md_chars(&cs) {
            Some(parts) => {
                let ghost pv = crate::mathsplit::view_parts(parts@);
                let n = parts.len();
                let mut k: usize = 0;
                proof {
                    crate::mathsplit::lemma_view_parts_len(parts@);
                    assert(pv.take(0) =~= Seq::<GPart>::empty());
                }
                while k < n
                    invariant
                        k <= n,
                        n == parts@.len(),
                        pv == crate::mathsplit::view_parts(parts@),
                        pv.len() == n,
                        sv == view_styles(styles@),
                        b@ == fold_block_parts(old(b)@, pv.take(k as int), sv),
                    decreases n - k,
                {
                    proof {
                        crate::mathsplit::lemma_view_parts_index(parts@, k as int);
                        assert(pv.take(k as int + 1).drop_last() =~= pv.take(k as int));
                        assert(pv.take(k as int + 1).last() == pv[k as int]);
                    }
                    let p = crate::mathsplit::part_clone(&parts, k);
                    match p {
                        crate::mathsplit::TextPart::Math(c, _) => {
                            b.add_math(c, true);
                        },
                        crate::mathsplit::TextPart::Text(tx) => {
                            if !tx.as_str().is_empty() {
                                let node = wrap_styles_x(styles, 0, tx);
                                proof {
                                    assert(sv.skip(0) =~= sv);
                                }
                                b.add_inline_node(node);
                            }
                        },
                    }
                    k += 1;
                }
                proof {
                    assert(pv.take(n as int) =~= pv);
                }
            },
            None => {
                inline_text_at_top(b, styles, &cs);
            },
        }
    } else {
        inline_text_at_top(b, styles, &cs);
    }
}

/// Inline `$` processing of a text run at the builder level.
fn inline_text_at_top(b: &mut ASTBuilder, styles: &Vec<StyleTok>, cs: &Vec<char>)
    ensures
        final(b)@ == fold_inline_parts(old(b)@, split_inline(cs@, true), view_styles(styles@)),
{
    let ghost sv = view_styles(styles@);
    let parts = crate::mathsplit::split_inline_chars(cs, true);
    let ghost pv = crate::mathsplit::view_parts(parts@);
    let n = parts.len();
    let mut k: usize = 0;
    proof {
        crate::mathsplit::lemma_view_parts_len(parts@);
        assert(pv.take(0) =~= Seq::<GPart>::empty());
    }
    while k < n
        invariant
            k <= n,
            n == parts@.len(),
            pv == crate::mathsplit::view_parts(parts@),
            pv.len() == n,
            sv == view_styles(styles@),
            b@ == fold_inline_parts(old(b)@, pv.take(k as int), sv),
        decreases n - k,
    {
        proof {
            crate::mathsplit::lemma_view_parts_index(parts@, k as int);
            assert(pv.take(k as int + 1).drop_last() =~= pv.take(k as int));
            assert(pv.take(k as int + 1).last() == pv[k as int]);
        }
        let p = crate::mathsplit::part_clone(&parts, k);
        match p {
            crate::mathsplit::TextPart::Math(c, _) => {
                b.add_inline_math(c);
            },
            crate::mathsplit::TextPart::Text(tx) => {
                if !tx.as_str().is_empty() {
                    let node = wrap_styles_x(styles, 0, tx);
                    proof {
                        assert(sv.skip(0) =~= sv);
                    }
                    b.add_inline_node(node);
                }
            },
        }
        k += 1;
    }
    proof {
        assert(pv.take(n as int) =~= pv);
    }
}

/// Append the characters of a string and a final newline to a buffer.
fn push_text_nl(buf: &mut Vec<char>, t: &String)
    ensures
        final(buf)@ == old(buf)@ + t@ + seq!['\n'],
{
    let tc = crate::json::str_to_chars(t.as_str());
    let m = tc.len();
    let mut q: usize = 0;
    while q < m
        invariant
            q <= m,
            m == tc@.len(),
            tc@ == t@,
            buf@ == old(buf)@ + tc@.take(q as int),
        decreases m - q,
    {
        buf.push(tc[q]);
        proof {
            assert(old(buf)@ + tc@.take(q as int + 1) =~= (old(buf)@ + tc@.take(q as int)).push(
                tc@[q as int],
            ));
        }
        q += 1;
    }
    buf.push('\n');
    proof {
        assert(tc@.take(m as int) =~= tc@);
        assert(buf@ =~= old(buf)@ + t@ + seq!['\n']);
    }
}

/// Append the characters of a string to a buffer.
fn push_text(buf: &mut Vec<char>, t: &String)
    ensures
        final(buf)@ == old(buf)@ + t@,
{
    let tc = crate::json::str_to_chars(t.as_str());
    let m = tc.len();
    let mut q: usize = 0;
    while q < m
        invariant
            q <= m,
            m == tc@.len(),
            tc@ == t@,
            buf@ == old(buf)@ + tc@.take(q as int),
        decreases m - q,
    {
        buf.push(tc[q]);
        proof {
            assert(old(buf)@ + tc@.take(q as int + 1) =~= (old(buf)@ + tc@.take(q as int)).push(
                tc@[q as int],
            ));
        }
        q += 1;
    }
    proof {
        assert(tc@.take(m as int) =~= tc@);
    }
}

proof fn lemma_md_fold_snoc(st: GMd, s: Seq<GEvent>, x: GEvent)
    ensures
        md_fold(st, s.push(x)) == md_step(md_fold(st, s), x),
    decreases s.len(),
{
    if s.len() == 0 {
        assert(s.push(x)[0] == x);
        assert(s.push(x).drop_first() =~= Seq::<GEvent>::empty());
        assert(md_fold(st, s) == st);
        assert(md_fold(md_step(st, x), Seq::<GEvent>::empty()) == md_step(st, x));
        assert(md_fold(st, s.push(x)) == md_fold(md_step(st, x), s.push(x).drop_first()));
    } else {
        assert(s.push(x)[0] == s[0]);
        assert(s.push(x).drop_first() =~= s.drop_first().push(x));
        lemma_md_fold_snoc(md_step(st, s[0]), s.drop_first(), x);
    }
}

/// The parser over extended Markdown text.
#[derive(Debug)]
pub struct MarkdownParser;

impl MarkdownParser {
    pub fn new() -> (r: MarkdownParser) {
        MarkdownParser
    }

    /// Parse a Markdown text: the tokenizer's event stream folded into a
    /// document tree. Parsing never fails; the result is always the
    /// reduction of the input's event stream.
    pub fn parse(&self, input: &str) -> (r: Result<RootNode, crate::ParseError>)
        ensures
            r matches Ok(root) && root@ == md_result(md_events_of(input@)),
    {
        let events = md_tokenize(input);
        let ghost ev = view_events(events@);
        let mut b = ASTBuilder::new();
        let mut frames: Vec<Frame> = Vec::new();
        let mut styles: Vec<StyleTok> = Vec::new();
        let mut in_para: bool = false;
        let n = events.len();
        let mut k: usize = 0;
        proof {
            lemma_view_events_len(events@);
            assert(ev.take(0) =~= Seq::<GEvent>::empty());
            assert(view_frames(frames@) =~= Seq::<GFrame>::empty());
            assert(view_styles(styles@) =~= Seq::<GStyle>::empty());
            assert(md_st(b@, view_frames(frames@), view_styles(styles@), in_para) =~= md_fold(
                md_init(),
                ev.take(0),
            ));
        }
        while k < n
            invariant
                k <= n,
                n == events@.len(),
                ev == view_events(events@),
                ev.len() == n,
                md_st(b@, view_frames(frames@), view_styles(styles@), in_para) == md_fold(
                    md_init(),
                    ev.take(k as int),
                ),
            decreases n - k,
        {
            let ghost st_pre = md_st(b@, view_frames(frames@), view_styles(styles@), in_para);
            let ghost evk = ev[k as int];
            proof {
                lemma_view_events_index(events@, k as int);
                assert(ev.take(k as int + 1) =~= ev.take(k as int).push(evk));
                lemma_md_fold_snoc(md_init(), ev.take(k as int), evk);
            }
            apply_ev(&events[k], &mut b, &mut frames, &mut styles, &mut in_para);
            proof {
                assert(md_st(b@, view_frames(frames@), view_styles(styles@), in_para)
                    == md_step(st_pre, evk));
            }
            k += 1;
        }
        proof {
            assert(ev.take(n as int) =~= ev);
        }
        let root = b.end_document();
        Ok(root)
    }
}

/// Apply one tokenizer event to the reduction state.
#[verifier::rlimit(100)]
#[verifier::spinoff_prover]
fn apply_ev(
    ev: &MdEvent,
    b: &mut ASTBuilder,
    frames: &mut Vec<Frame>,
    styles: &mut Vec<StyleTok>,
    in_para: &mut bool,
)
    ensures
        md_st(
            final(b)@,
            view_frames(final(frames)@),
            view_styles(final(styles)@),
            *final(in_para),
        ) == md_step(
            md_st(old(b)@, view_frames(old(frames)@), view_styles(old(styles)@), *old(in_para)),
            ev@,
        ),
{
    let ghost st0 = md_st(old(b)@, view_frames(old(frames)@), view_styles(old(styles)@), *old(
        in_para,
    ));
    proof {
        lemma_view_frames_len(frames@);
        lemma_view_styles_len(styles@);
    }
    match ev {
        MdEvent::Start(tag) => match tag {
            MdTag::Paragraph => {
                if frames.len() == 0 {
                    b.start_paragraph();
                    *in_para = true;
                } else {
                    let f = Frame::Para(Vec::new());
                    proof {
                        lemma_view_frames_push(frames@, f);
                        assert(f@ =~= GFrame::Para(Seq::empty())) by {
                            assert(crate::ast::view_nodes(Seq::<ASTNode>::empty())
                                =~= Seq::<GNode>::empty());
                        };
                    }
                    frames.push(f);
                }
                proof {
                    assert(md_st(b@, view_frames(frames@), view_styles(styles@), *in_para)
                        =~= md_step(st0, ev@));
                }
            },
            MdTag::Heading(l) => {
                let f = Frame::Heading(*l, Vec::new());
                proof {
                    lemma_view_frames_push(frames@, f);
                    assert(crate::ast::view_nodes(Seq::<ASTNode>::empty())
                        =~= Seq::<GNode>::empty());
                }
                frames.push(f);
                proof {
                    assert(md_st(b@, view_frames(frames@), view_styles(styles@), *in_para)
                        =~= md_step(st0, ev@));
                }
            },
            MdTag::BlockQuote => {
                let f = Frame::Blockquote(Vec::new());
                proof {
                    lemma_view_frames_push(frames@, f);
                    assert(crate::ast::view_nodes(Seq::<ASTNode>::empty())
                        =~= Seq::<GNode>::empty());
                }
                frames.push(f);
                proof {
                    assert(md_st(b@, view_frames(frames@), view_styles(styles@), *in_para)
                        =~= md_step(st0, ev@));
                }
            },
            MdTag::CodeBlock(kind) => {
                let lang: Option<String> = match kind {
                    MdCodeKind::Fenced(l) => {
                        if l.as_str().is_empty() {
                            None
                        } else {
                            Some(l.clone())
                        }
                    },
                    MdCodeKind::Indented => None,
                };
                let f = Frame::CodeBlock(lang, Vec::new());
                proof {
                    lemma_view_frames_push(frames@, f);
                }
                frames.push(f);
                proof {
                    assert(md_st(b@, view_frames(frames@), view_styles(styles@), *in_para)
                        =~= md_step(st0, ev@));
                }
            },
            MdTag::List(o) => {
                if frames.len() == 0 {
                    match o {
                        None => {
                            b.start_list(ListType::Bullet);
                        },
                        Some(nn) => {
                            if *nn == 1 {
                                b.start_list(ListType::Ordered);
                            }
                        },
                    }
                } else {
                    match o {
                        None => {
                            let f = Frame::NestedList(ListType::Bullet, Vec::new());
                            proof {
                                lemma_view_frames_push(frames@, f);
                                assert(crate::ast::view_items(
                                    Seq::<crate::ast::ListItemNode>::empty(),
                                ) =~= Seq::<GListItem>::empty());
                            }
                            frames.push(f);
                        },
                        Some(nn) => {
                            if *nn == 1 {
                                let f = Frame::NestedList(ListType::Ordered, Vec::new());
                                proof {
                                    lemma_view_frames_push(frames@, f);
                                    assert(crate::ast::view_items(
                                        Seq::<crate::ast::ListItemNode>::empty(),
                                    ) =~= Seq::<GListItem>::empty());
                                }
                                frames.push(f);
                            }
                        },
                    }
                }
                proof {
                    assert(md_st(b@, view_frames(frames@), view_styles(styles@), *in_para)
                        =~= md_step(st0, ev@));
                }
            },
            MdTag::Item => {
                let f = Frame::Item(Vec::new(), None);
                proof {
                    lemma_view_frames_push(frames@, f);
                    assert(crate::ast::view_nodes(Seq::<ASTNode>::empty())
                        =~= Seq::<GNode>::empty());
                }
                frames.push(f);
                proof {
                    assert(md_st(b@, view_frames(frames@), view_styles(styles@), *in_para)
                        =~= md_step(st0, ev@));
                }
            },
            MdTag::Table => {
                if frames.len() == 0 {
                    b.start_table();
                }
                proof {
                    assert(md_st(b@, view_frames(frames@), view_styles(styles@), *in_para)
                        =~= md_step(st0, ev@));
                }
            },
            MdTag::TableHead => {
                if frames.len() == 0 {
                    b.start_table_row();
                }
                proof {
                    assert(md_st(b@, view_frames(frames@), view_styles(styles@), *in_para)
                        =~= md_step(st0, ev@));
                }
            },
            MdTag::TableRow => {
                if frames.len() == 0 {
                    b.start_table_row();
                }
                proof {
                    assert(md_st(b@, view_frames(frames@), view_styles(styles@), *in_para)
                        =~= md_step(st0, ev@));
                }
            },
            MdTag::TableCell => {
                let f = Frame::Cell(Vec::new());
                proof {
                    lemma_view_frames_push(frames@, f);
                    assert(crate::ast::view_nodes(Seq::<ASTNode>::empty())
                        =~= Seq::<GNode>::empty());
                }
                frames.push(f);
                proof {
                    assert(md_st(b@, view_frames(frames@), view_styles(styles@), *in_para)
                        =~= md_step(st0, ev@));
                }
            },
            MdTag::Emphasis => {
                proof {
                    lemma_view_styles_push(styles@, StyleTok::Em);
                }
                styles.push(StyleTok::Em);
                proof {
                    assert(md_st(b@, view_frames(frames@), view_styles(styles@), *in_para)
                        =~= md_step(st0, ev@));
                }
            },
            MdTag::Strong => {
                proof {
                    lemma_view_styles_push(styles@, StyleTok::Strong);
                }
                styles.push(StyleTok::Strong);
                proof {
                    assert(md_st(b@, view_frames(frames@), view_styles(styles@), *in_para)
                        =~= md_step(st0, ev@));
                }
            },
            MdTag::Strikethrough => {
                proof {
                    lemma_view_styles_push(styles@, StyleTok::Strike);
                }
                styles.push(StyleTok::Strike);
                proof {
                    assert(md_st(b@, view_frames(frames@), view_styles(styles@), *in_para)
                        =~= md_step(st0, ev@));
                }
            },
            MdTag::Link(u) => {
                let f = StyleTok::Link(u.clone());
                proof {
                    lemma_view_styles_push(styles@, f);
                }
                styles.push(f);
                proof {
                    assert(md_st(b@, view_frames(frames@), view_styles(styles@), *in_para)
                        =~= md_step(st0, ev@));
                }
            },
            MdTag::Image(u, t) => {
                let f = Frame::ImageAlt(u.clone(), t.clone(), Vec::new());
                proof {
                    lemma_view_frames_push(frames@, f);
                }
                frames.push(f);
                proof {
                    assert(md_st(b@, view_frames(frames@), view_styles(styles@), *in_para)
                        =~= md_step(st0, ev@));
                }
            },
            MdTag::Other => {
                proof {
                    assert(md_st(b@, view_frames(frames@), view_styles(styles@), *in_para)
                        =~= md_step(st0, ev@));
                }
            },
        },
        MdEvent::End(tag) => {
            apply_end(tag, b, frames, styles, in_para);
            proof {
                assert(md_st(b@, view_frames(frames@), view_styles(styles@), *in_para)
                    == md_step(st0, ev@));
            }
        },
        MdEvent::Text(t) => {
            apply_text(t, b, frames, styles, in_para);
            proof {
                assert(md_st(b@, view_frames(frames@), view_styles(styles@), *in_para)
                    == md_step(st0, ev@));
            }
        },
        MdEvent::Code(c) => {
            proof {
                if frames@.len() > 0 {
                    lemma_view_frames_last(frames@);
                }
            }
            if frames.len() == 0 {
                b.add_code(c.clone());
            } else {
                let is_opaque = match &frames[frames.len() - 1] {
                    Frame::CodeBlock(_, _) => true,
                    Frame::ImageAlt(_, _, _) => true,
                    _ => false,
                };
                proof {
                    assert(frames@[frames@.len() - 1] == frames@.last());
                }
                if !is_opaque {
                    frame_add_x(frames, ASTNode::Code(crate::ast::CodeNode { content: c.clone() }));
                }
            }
            proof {
                assert(md_st(b@, view_frames(frames@), view_styles(styles@), *in_para)
                    =~= md_step(st0, ev@));
            }
        },
        MdEvent::Html(_) => {
            proof {
                assert(md_st(b@, view_frames(frames@), view_styles(styles@), *in_para)
                    =~= md_step(st0, ev@));
            }
        },
        MdEvent::FootnoteRef(_) => {
            proof {
                assert(md_st(b@, view_frames(frames@), view_styles(styles@), *in_para)
                    =~= md_step(st0, ev@));
            }
        },
        MdEvent::SoftBreak => {
            if frames.len() == 0 {
                b.add_text(String::from_str(" "));
                proof {
                    reveal_strlit(" ");
                    assert(" "@ =~= seq![' ']);
                    assert(" "@.len() == 1);
                }
            }
            proof {
                assert(md_st(b@, view_frames(frames@), view_styles(styles@), *in_para)
                    =~= md_step(st0, ev@));
            }
        },
        MdEvent::HardBreak => {
            if frames.len() == 0 {
                b.add_text(String::from_str("\n"));
                proof {
                    reveal_strlit("\n");
                    assert("\n"@ =~= seq!['\n']);
                    assert("\n"@.len() == 1);
                }
            }
            proof {
                assert(md_st(b@, view_frames(frames@), view_styles(styles@), *in_para)
                    =~= md_step(st0, ev@));
            }
        },
        MdEvent::Rule => {
            proof {
                if frames@.len() > 0 {
                    lemma_view_frames_last(frames@);
                }
            }
            if frames.len() == 0 {
                b.add_horizontal_rule();
            } else {
                let is_bq = match &frames[frames.len() - 1] {
                    Frame::Blockquote(_) => true,
                    _ => false,
                };
                proof {
                    assert(frames@[frames@.len() - 1] == frames@.last());
                }
                if is_bq {
                    frame_add_x(frames, ASTNode::HorizontalRule(crate::ast::HorizontalRuleNode));
                }
            }
            proof {
                assert(md_st(b@, view_frames(frames@), view_styles(styles@), *in_para)
                    =~= md_step(st0, ev@));
            }
        },
        MdEvent::TaskListMarker(bb) => {
            proof {
                if frames@.len() > 0 {
                    lemma_view_frames_last(frames@);
                }
            }
            if frames.len() > 0 {
                let is_item = match &frames[frames.len() - 1] {
                    Frame::Item(_, _) => true,
                    _ => false,
                };
                proof {
                    assert(frames@[frames@.len() - 1] == frames@.last());
                }
                if is_item {
                    let ghost pre = frames@;
                    match frames.pop() {
                        Some(Frame::Item(ns, _)) => {
                            let f2 = Frame::Item(ns, Some(*bb));
                            proof {
                                lemma_view_frames_push(pre.drop_last(), f2);
                            }
                            frames.push(f2);
                        },
                        _ => {
                            proof {
                                assert(false);
                            }
                        },
                    }
                    proof {
                        lemma_view_frames_last(pre);
                        assert(frames@ =~= pre.drop_last().push(frames@.last()));
                    }
                }
            }
            proof {
                assert(md_st(b@, view_frames(frames@), view_styles(styles@), *in_para)
                    =~= md_step(st0, ev@));
            }
        },
    }
}

/// Apply one `End` tag to the reduction state.
#[verifier::rlimit(100)]
#[verifier::spinoff_prover]
fn apply_end(
    tag: &MdTag,
    b: &mut ASTBuilder,
    frames: &mut Vec<Frame>,
    styles: &mut Vec<StyleTok>,
    in_para: &mut bool,
)
    ensures
        md_st(
            final(b)@,
            view_frames(final(frames)@),
            view_styles(final(styles)@),
            *final(in_para),
        ) == md_step(
            md_st(old(b)@, view_frames(old(frames)@), view_styles(old(styles)@), *old(in_para)),
            GEvent::End(tag@),
        ),
{
    let ghost st0 = md_st(old(b)@, view_frames(old(frames)@), view_styles(old(styles)@), *old(
        in_para,
    ));
    proof {
        lemma_view_frames_len(frames@);
        lemma_view_styles_len(styles@);
        if frames@.len() > 0 {
            lemma_view_frames_last(frames@);
        }
    }
    match tag {
        MdTag::Paragraph => {
            if frames.len() == 0 {
                match b.take_paragraph() {
                    Some(p) => {
                        match check_para_math(&p.children) {
                            Some(m) => {
                                b.add_math(m, true);
                            },
                            None => {
                                b.emit_paragraph(p.children);
                            },
                        }
                    },
                    None => {},
                }
                *in_para = false;
            } else {
                let ghost pre = frames@;
                let is_para = match &frames[frames.len() - 1] {
                    Frame::Para(_) => true,
                    _ => false,
                };
                proof {
                    assert(frames@[frames@.len() - 1] == frames@.last());
                }
                if is_para {
                    match frames.pop() {
                        Some(Frame::Para(ns)) => {
                            proof {
                                assert(frames@ =~= pre.drop_last());
                            }
                            match check_para_math(&ns) {
                                Some(m) => {
                                    put_block_x(
                                        b,
                                        frames,
                                        ASTNode::Math(
                                            crate::ast::MathNode { content: m, display: true },
                                        ),
                                    );
                                },
                                None => {
                                    if ns.len() > 0 {
                                        proof {
                                            crate::ast::lemma_view_nodes_len(ns@);
                                        }
                                        put_block_x(
                                            b,
                                            frames,
                                            ASTNode::Paragraph(
                                                crate::ast::ParagraphNode { children: ns },
                                            ),
                                        );
                                    } else {
                                        proof {
                                            crate::ast::lemma_view_nodes_len(ns@);
                                        }
                                    }
                                },
                            }
                        },
                        _ => {
                            proof {
                                assert(false);
                            }
                        },
                    }
                }
            }
            proof {
                assert(md_st(b@, view_frames(frames@), view_styles(styles@), *in_para)
                    =~= md_step(st0, GEvent::End(tag@)));
            }
        },
        MdTag::Heading(_) => {
            if frames.len() > 0 {
                let ghost pre = frames@;
                let is_h = match &frames[frames.len() - 1] {
                    Frame::Heading(_, _) => true,
                    _ => false,
                };
                proof {
                    assert(frames@[frames@.len() - 1] == frames@.last());
                }
                if is_h {
                    match frames.pop() {
                        Some(Frame::Heading(l, ns)) => {
                            proof {
                                assert(frames@ =~= pre.drop_last());
                            }
                            if frames.len() == 0 {
                                b.add_heading(l, ns);
                            } else {
                                let lv = crate::ast::clamp_heading_level(l);
                                put_block_x(
                                    b,
                                    frames,
                                    ASTNode::Heading(
                                        crate::ast::HeadingNode { level: lv, children: ns },
                                    ),
                                );
                            }
                        },
                        _ => {
                            proof {
                                assert(false);
                            }
                        },
                    }
                }
            }
            proof {
                assert(md_st(b@, view_frames(frames@), view_styles(styles@), *in_para)
                    =~= md_step(st0, GEvent::End(tag@)));
            }
        },
        MdTag::BlockQuote => {
            if frames.len() > 0 {
                let ghost pre = frames@;
                let is_bq = match &frames[frames.len() - 1] {
                    Frame::Blockquote(_) => true,
                    _ => false,
                };
                proof {
                    assert(frames@[frames@.len() - 1] == frames@.last());
                }
                if is_bq {
                    match frames.pop() {
                        Some(Frame::Blockquote(ns)) => {
                            proof {
                                assert(frames@ =~= pre.drop_last());
                            }
                            put_block_x(
                                b,
                                frames,
                                ASTNode::Blockquote(
                                    crate::ast::BlockquoteNode { children: ns },
                                ),
                            );
                        },
                        _ => {
                            proof {
                                assert(false);
                            }
                        },
                    }
                }
            }
            proof {
                assert(md_st(b@, view_frames(frames@), view_styles(styles@), *in_para)
                    =~= md_step(st0, GEvent::End(tag@)));
            }
        },
        MdTag::CodeBlock(_) => {
            if frames.len() > 0 {
                let ghost pre = frames@;
                let is_cb = match &frames[frames.len() - 1] {
                    Frame::CodeBlock(_, _) => true,
                    _ => false,
                };
                proof {
                    assert(frames@[frames@.len() - 1] == frames@.last());
                }
                if is_cb {
                    match frames.pop() {
                        Some(Frame::CodeBlock(lang, content)) => {
                            proof {
                                assert(frames@ =~= pre.drop_last());
                            }
                            let trimmed = trim_end_x(&content);
                            let cstr = crate::json::chars_to_string(&trimmed);
                            let node = match lang {
                                Some(l) => {
                                    if is_mermaid_lang(&l) {
                                        ASTNode::Mermaid(
                                            crate::ast::MermaidNode { content: cstr },
                                        )
                                    } else {
                                        ASTNode::CodeBlock(
                                            crate::ast::CodeBlockNode {
                                                language: Some(l),
                                                content: cstr,
                                            },
                                        )
                                    }
                                },
                                None => ASTNode::CodeBlock(
                                    crate::ast::CodeBlockNode { language: None, content: cstr },
                                ),
                            };
                            put_block_x(b, frames, node);
                        },
                        _ => {
                            proof {
                                assert(false);
                            }
                        },
                    }
                }
            }
            proof {
                assert(md_st(b@, view_frames(frames@), view_styles(styles@), *in_para)
                    =~= md_step(st0, GEvent::End(tag@)));
            }
        },
        MdTag::List(_) => {
            if frames.len() == 0 {
                b.end_list();
            } else {
                let ghost pre = frames@;
                let is_nl = match &frames[frames.len() - 1] {
                    Frame::NestedList(_, _) => true,
                    _ => false,
                };
                proof {
                    assert(frames@[frames@.len() - 1] == frames@.last());
                }
                if is_nl {
                    match frames.pop() {
                        Some(Frame::NestedList(t, items)) => {
                            proof {
                                assert(frames@ =~= pre.drop_last());
                            }
                            put_block_x(
                                b,
                                frames,
                                ASTNode::List(crate::ast::ListNode { list_type: t, items }),
                            );
                        },
                        _ => {
                            proof {
                                assert(false);
                            }
                        },
                    }
                }
            }
            proof {
                assert(md_st(b@, view_frames(frames@), view_styles(styles@), *in_para)
                    =~= md_step(st0, GEvent::End(tag@)));
            }
        },
        MdTag::Item => {
            if frames.len() > 0 {
                let ghost pre = frames@;
                let is_item = match &frames[frames.len() - 1] {
                    Frame::Item(_, _) => true,
                    _ => false,
                };
                proof {
                    assert(frames@[frames@.len() - 1] == frames@.last());
                }
                if is_item {
                    match frames.pop() {
                        Some(Frame::Item(ns, c)) => {
                            proof {
                                assert(frames@ =~= pre.drop_last());
                                lemma_view_frames_len(frames@);
                                if frames@.len() > 0 {
                                    lemma_view_frames_last(frames@);
                                }
                            }
                            if frames.len() == 0 {
                                b.add_list_item(ns, c);
                            } else {
                                let ghost pre2 = frames@;
                                let is_pl = match &frames[frames.len() - 1] {
                                    Frame::NestedList(_, _) => true,
                                    _ => false,
                                };
                                proof {
                                    assert(frames@[frames@.len() - 1] == frames@.last());
                                }
                                if is_pl {
                                    match frames.pop() {
                                        Some(Frame::NestedList(t, mut items)) => {
                                            let ghost pitems = items@;
                                            let item = crate::ast::ListItemNode {
                                                children: ns,
                                                checked: c,
                                            };
                                            items.push(item);
                                            proof {
                                                crate::ast::lemma_view_items_push(
                                                    pitems,
                                                    items@.last(),
                                                );
                                                assert(items@ =~= pitems.push(items@.last()));
                                            }
                                            let f2 = Frame::NestedList(t, items);
                                            proof {
                                                lemma_view_frames_push(pre2.drop_last(), f2);
                                            }
                                            frames.push(f2);
                                            proof {
                                                assert(frames@ =~= pre2.drop_last().push(
                                                    frames@.last(),
                                                ));
                                            }
                                        },
                                        _ => {
                                            proof {
                                                assert(false);
                                            }
                                        },
                                    }
                                }
                            }
                        },
                        _ => {
                            proof {
                                assert(false);
                            }
                        },
                    }
                }
            }
            proof {
                assert(md_st(b@, view_frames(frames@), view_styles(styles@), *in_para)
                    =~= md_step(st0, GEvent::End(tag@)));
            }
        },
        MdTag::Table => {
            if frames.len() == 0 {
                b.end_table();
            }
            proof {
                assert(md_st(b@, view_frames(frames@), view_styles(styles@), *in_para)
                    =~= md_step(st0, GEvent::End(tag@)));
            }
        },
        MdTag::TableHead => {
            if frames.len() == 0 {
                b.end_table_row();
            }
            proof {
                assert(md_st(b@, view_frames(frames@), view_styles(styles@), *in_para)
                    =~= md_step(st0, GEvent::End(tag@)));
            }
        },
        MdTag::TableRow => {
            if frames.len() == 0 {
                b.end_table_row();
            }
            proof {
                assert(md_st(b@, view_frames(frames@), view_styles(styles@), *in_para)
                    =~= md_step(st0, GEvent::End(tag@)));
            }
        },
        MdTag::TableCell => {
            if frames.len() > 0 {
                let ghost pre = frames@;
                let is_cell = match &frames[frames.len() - 1] {
                    Frame::Cell(_) => true,
                    _ => false,
                };
                proof {
                    assert(frames@[frames@.len() - 1] == frames@.last());
                }
                if is_cell {
                    match frames.pop() {
                        Some(Frame::Cell(ns)) => {
                            proof {
                                assert(frames@ =~= pre.drop_last());
                                lemma_view_frames_len(frames@);
                            }
                            if frames.len() == 0 {
                                b.add_table_cell(ns, None);
                            } else {
                                put_block_x(
                                    b,
                                    frames,
                                    ASTNode::TableCell(
                                        crate::ast::TableCell { children: ns, align: None },
                                    ),
                                );
                            }
                        },
                        _ => {
                            proof {
                                assert(false);
                            }
                        },
                    }
                }
            }
            proof {
                assert(md_st(b@, view_frames(frames@), view_styles(styles@), *in_para)
                    =~= md_step(st0, GEvent::End(tag@)));
            }
        },
        MdTag::Emphasis => {
            remove_style_x(styles, 1);
            proof {
                assert(md_st(b@, view_frames(frames@), view_styles(styles@), *in_para)
                    =~= md_step(st0, GEvent::End(tag@)));
            }
        },
        MdTag::Strong => {
            remove_style_x(styles, 0);
            proof {
                assert(md_st(b@, view_frames(frames@), view_styles(styles@), *in_para)
                    =~= md_step(st0, GEvent::End(tag@)));
            }
        },
        MdTag::Strikethrough => {
            remove_style_x(styles, 2);
            proof {
                assert(md_st(b@, view_frames(frames@), view_styles(styles@), *in_para)
                    =~= md_step(st0, GEvent::End(tag@)));
            }
        },
        MdTag::Link(_) => {
            remove_style_x(styles, 3);
            proof {
                assert(md_st(b@, view_frames(frames@), view_styles(styles@), *in_para)
                    =~= md_step(st0, GEvent::End(tag@)));
            }
        },
        MdTag::Image(_, _) => {
            if frames.len() > 0 {
                let ghost pre = frames@;
                let is_img = match &frames[frames.len() - 1] {
                    Frame::ImageAlt(_, _, _) => true,
                    _ => false,
                };
                proof {
                    assert(frames@[frames@.len() - 1] == frames@.last());
                }
                if is_img {
                    match frames.pop() {
                        Some(Frame::ImageAlt(u, ti, alt)) => {
                            proof {
                                assert(frames@ =~= pre.drop_last());
                            }
                            let alt_opt: Option<String> = if alt.len() > 0 {
                                Some(crate::json::chars_to_string(&alt))
                            } else if !ti.as_str().is_empty() {
                                Some(ti)
                            } else {
                                None
                            };
                            b.add_image(u, None, None, alt_opt);
                        },
                        _ => {
                            proof {
                                assert(false);
                            }
                        },
                    }
                }
            }
            proof {
                assert(md_st(b@, view_frames(frames@), view_styles(styles@), *in_para)
                    =~= md_step(st0, GEvent::End(tag@)));
            }
        },
        MdTag::Other => {
            proof {
                assert(md_st(b@, view_frames(frames@), view_styles(styles@), *in_para)
                    =~= md_step(st0, GEvent::End(tag@)));
            }
        },
    }
}

/// Apply one text run to the reduction state.
#[verifier::rlimit(100)]
#[verifier::spinoff_prover]
fn apply_text(
    t: &String,
    b: &mut ASTBuilder,
    frames: &mut Vec<Frame>,
    styles: &Vec<StyleTok>,
    in_para: &mut bool,
)
    ensures
        md_st(
            final(b)@,
            view_frames(final(frames)@),
            view_styles(styles@),
            *final(in_para),
        ) == md_step(
            md_st(old(b)@, view_frames(old(frames)@), view_styles(styles@), *old(in_para)),
            GEvent::Text(t@),
        ),
{
    let ghost st0 = md_st(old(b)@, view_frames(old(frames)@), view_styles(styles@), *old(
        in_para,
    ));
    proof {
        lemma_view_frames_len(frames@);
        if frames@.len() > 0 {
            lemma_view_frames_last(frames@);
        }
    }
    if frames.len() > 0 {
        let ghost pre = frames@;
        let which: u8 = match &frames[frames.len() - 1] {
            Frame::CodeBlock(_, _) => 1,
            Frame::ImageAlt(_, _, _) => 2,
            _ => 0,
        };
        proof {
            assert(frames@[frames@.len() - 1] == frames@.last());
        }
        if which == 1 {
            match frames.pop() {
                Some(Frame::CodeBlock(lang, mut content)) => {
                    push_text_nl(&mut content, t);
                    let f2 = Frame::CodeBlock(lang, content);
                    proof {
                        lemma_view_frames_push(pre.drop_last(), f2);
                    }
                    frames.push(f2);
                    proof {
                        assert(frames@ =~= pre.drop_last().push(frames@.last()));
                    }
                },
                _ => {
                    proof {
                        assert(false);
                    }
                },
            }
        } else if which == 2 {
            match frames.pop() {
                Some(Frame::ImageAlt(u, ti, mut alt)) => {
                    push_text(&mut alt, t);
                    let f2 = Frame::ImageAlt(u, ti, alt);
                    proof {
                        lemma_view_frames_push(pre.drop_last(), f2);
                    }
                    frames.push(f2);
                    proof {
                        assert(frames@ =~= pre.drop_last().push(frames@.last()));
                    }
                },
                _ => {
                    proof {
                        assert(false);
                    }
                },
            }
        } else {
            text_in_frames(b, frames, styles, t, Ghost(*old(in_para)));
        }
    } else {
        text_at_top(b, styles, t, *in_para);
    }
    proof {
        assert(md_st(b@, view_frames(frames@), view_styles(styles@), *in_para) =~= md_step(
            st0,
            GEvent::Text(t@),
        ));
    }
}

/// The text-leaf invariant over one open frame.
pub open spec fn frame_text_ok(f: GFrame) -> bool {
    match f {
        GFrame::Para(ns) => crate::ast::text_nonempty_nodes(ns),
        GFrame::Heading(_, ns) => crate::ast::text_nonempty_nodes(ns),
        GFrame::Blockquote(ns) => crate::ast::text_nonempty_nodes(ns),
        GFrame::Item(ns, _) => crate::ast::text_nonempty_nodes(ns),
        GFrame::NestedList(_, items) => crate::ast::text_nonempty_items(items),
        GFrame::Cell(ns) => crate::ast::text_nonempty_nodes(ns),
        GFrame::CodeBlock(_, _) => true,
        GFrame::ImageAlt(_, _, _) => true,
    }
}

pub open spec fn frames_text_ok(fs: Seq<GFrame>) -> bool
    decreases fs,
{
    if fs.len() == 0 {
        true
    } else {
        frames_text_ok(fs.drop_last()) && frame_text_ok(fs.last())
    }
}

/// The text-leaf invariant over the whole reduction state.
pub open spec fn md_text_ok(st: GMd) -> bool {
    crate::delta_parser::b_text_ok(st.b) && frames_text_ok(st.frames)
}

proof fn lemma_frames_ok_push(fs: Seq<GFrame>, f: GFrame)
    ensures
        frames_text_ok(fs.push(f)) == (frames_text_ok(fs) && frame_text_ok(f)),
{
    assert(fs.push(f).drop_last() =~= fs);
    assert(fs.push(f).last() == f);
    assert(frames_text_ok(fs.push(f)) == (frames_text_ok(fs.push(f).drop_last()) && frame_text_ok(
        fs.push(f).last(),
    )));
}

proof fn lemma_frames_ok_last(fs: Seq<GFrame>)
    requires
        fs.len() > 0,
        frames_text_ok(fs),
    ensures
        frame_text_ok(fs.last()),
        frames_text_ok(fs.drop_last()),
{
    assert(frames_text_ok(fs) == (frames_text_ok(fs.drop_last()) && frame_text_ok(fs.last())));
}

proof fn lemma_ok_frame_add(fs: Seq<GFrame>, n: GNode)
    requires
        fs.len() > 0,
        frames_text_ok(fs),
        crate::ast::text_nonempty(n),
    ensures
        frames_text_ok(frame_add(fs, n)),
{
    lemma_frames_ok_last(fs);
    let top = fs.last();
    match top {
        GFrame::Para(ns) => {
            crate::ast::lemma_text_nonempty_push(ns, n);
        },
        GFrame::Heading(l, ns) => {
            crate::ast::lemma_text_nonempty_push(ns, n);
        },
        GFrame::Blockquote(ns) => {
            crate::ast::lemma_text_nonempty_push(ns, n);
        },
        GFrame::Item(ns, c) => {
            crate::ast::lemma_text_nonempty_push(ns, n);
        },
        GFrame::Cell(ns) => {
            crate::ast::lemma_text_nonempty_push(ns, n);
        },
        _ => {},
    }
    lemma_frames_ok_push(fs.drop_last(), frame_add(fs, n).last());
    assert(frame_add(fs, n) == fs.drop_last().push(frame_add(fs, n).last()));
}

proof fn lemma_ok_with_inline(b: GBuilder, n: GNode)
    requires
        crate::delta_parser::b_text_ok(b),
        crate::ast::text_nonempty(n),
    ensures
        crate::delta_parser::b_text_ok(with_inline(b, n)),
{
    match b.para {
        Some(p) => {
            crate::ast::lemma_text_nonempty_push(p, n);
        },
        None => {
            crate::ast::lemma_text_nonempty_singleton(n);
        },
    }
}

proof fn lemma_ok_put_inline(st: GMd, n: GNode)
    requires
        md_text_ok(st),
        crate::ast::text_nonempty(n),
    ensures
        md_text_ok(put_inline(st, n)),
{
    if st.frames.len() == 0 {
        lemma_ok_with_inline(st.b, n);
    } else {
        lemma_ok_frame_add(st.frames, n);
    }
}

proof fn lemma_ok_put_block(st: GMd, n: GNode)
    requires
        md_text_ok(st),
        crate::ast::text_nonempty(n),
    ensures
        md_text_ok(put_block(st, n)),
{
    if st.frames.len() == 0 {
        crate::delta_parser::lemma_ok_with_block(st.b, n);
    } else {
        lemma_ok_frame_add(st.frames, n);
    }
}

/// A styled run over a non-empty text keeps the invariant.
proof fn lemma_ok_wrap_styles(styles: Seq<GStyle>, content: Seq<char>)
    requires
        content.len() > 0,
    ensures
        crate::ast::text_nonempty(wrap_styles(styles, content)),
    decreases styles,
{
    if styles.len() == 0 {
    } else {
        lemma_ok_wrap_styles(styles.drop_first(), content);
        let inner = wrap_styles(styles.drop_first(), content);
        crate::ast::lemma_text_nonempty_singleton(inner);
    }
}

proof fn lemma_ok_inline_nodes(parts: Seq<GPart>, styles: Seq<GStyle>)
    ensures
        crate::ast::text_nonempty_nodes(inline_nodes(parts, styles)),
    decreases parts,
{
    if parts.len() > 0 {
        lemma_ok_inline_nodes(parts.drop_last(), styles);
        match parts.last() {
            GPart::Math(c, d) => {
                crate::ast::lemma_text_nonempty_singleton(
                    GNode::Math { content: c, display: false },
                );
                crate::ast::lemma_text_nonempty_concat(
                    inline_nodes(parts.drop_last(), styles),
                    seq![GNode::Math { content: c, display: false }],
                );
            },
            GPart::Text(t) => {
                if t.len() > 0 {
                    lemma_ok_wrap_styles(styles, t);
                    crate::ast::lemma_text_nonempty_singleton(wrap_styles(styles, t));
                    crate::ast::lemma_text_nonempty_concat(
                        inline_nodes(parts.drop_last(), styles),
                        seq![wrap_styles(styles, t)],
                    );
                } else {
                    crate::ast::lemma_text_nonempty_concat(
                        inline_nodes(parts.drop_last(), styles),
                        Seq::<GNode>::empty(),
                    );
                }
            },
        }
    }
}

proof fn lemma_ok_put_inlines(st: GMd, ns: Seq<GNode>)
    requires
        md_text_ok(st),
        crate::ast::text_nonempty_nodes(ns),
    ensures
        md_text_ok(put_inlines(st, ns)),
    decreases ns,
{
    if ns.len() > 0 {
        lemma_ok_put_inlines(st, ns.drop_last());
        assert(crate::ast::text_nonempty(ns.last()));
        lemma_ok_put_inline(put_inlines(st, ns.drop_last()), ns.last());
    }
}

proof fn lemma_ok_fold_block_parts(b: GBuilder, parts: Seq<GPart>, styles: Seq<GStyle>)
    requires
        crate::delta_parser::b_text_ok(b),
    ensures
        crate::delta_parser::b_text_ok(fold_block_parts(b, parts, styles)),
    decreases parts,
{
    if parts.len() > 0 {
        lemma_ok_fold_block_parts(b, parts.drop_last(), styles);
        let acc = fold_block_parts(b, parts.drop_last(), styles);
        match parts.last() {
            GPart::Math(c, d) => {
                crate::delta_parser::lemma_ok_with_block(
                    acc,
                    GNode::Math { content: c, display: true },
                );
            },
            GPart::Text(t) => {
                if t.len() > 0 {
                    lemma_ok_wrap_styles(styles, t);
                    lemma_ok_with_inline(acc, styled_run(styles, t));
                }
            },
        }
    }
}

proof fn lemma_ok_fold_inline_parts(b: GBuilder, parts: Seq<GPart>, styles: Seq<GStyle>)
    requires
        crate::delta_parser::b_text_ok(b),
    ensures
        crate::delta_parser::b_text_ok(fold_inline_parts(b, parts, styles)),
    decreases parts,
{
    if parts.len() > 0 {
        lemma_ok_fold_inline_parts(b, parts.drop_last(), styles);
        let acc = fold_inline_parts(b, parts.drop_last(), styles);
        match parts.last() {
            GPart::Math(c, d) => {
                lemma_ok_with_inline(acc, GNode::Math { content: c, display: false });
            },
            GPart::Text(t) => {
                if t.len() > 0 {
                    lemma_ok_wrap_styles(styles, t);
                    lemma_ok_with_inline(acc, styled_run(styles, t));
                }
            },
        }
    }
}

/// One event keeps the invariant: the reduction never builds an empty
/// text leaf.
#[verifier::rlimit(100)]
#[verifier::spinoff_prover]
proof fn lemma_ok_md_step(st: GMd, ev: GEvent)
    requires
        md_text_ok(st),
    ensures
        md_text_ok(md_step(st, ev)),
{
    if st.frames.len() > 0 {
        lemma_frames_ok_last(st.frames);
    }
    match ev {
        GEvent::Start(tag) => match tag {
            GTag::Paragraph => {
                if st.frames.len() == 0 {
                    crate::delta_parser::lemma_ok_flush_para(st.b);
                } else {
                    lemma_frames_ok_push(st.frames, GFrame::Para(Seq::empty()));
                }
            },
            GTag::Heading(l) => {
                lemma_frames_ok_push(st.frames, GFrame::Heading(l, Seq::empty()));
            },
            GTag::BlockQuote => {
                lemma_frames_ok_push(st.frames, GFrame::Blockquote(Seq::empty()));
            },
            GTag::CodeBlockFenced(lang) => {
                lemma_frames_ok_push(
                    st.frames,
                    GFrame::CodeBlock(
                        if lang.len() == 0 {
                            None
                        } else {
                            Some(lang)
                        },
                        Seq::empty(),
                    ),
                );
            },
            GTag::CodeBlockIndented => {
                lemma_frames_ok_push(st.frames, GFrame::CodeBlock(None, Seq::empty()));
            },
            GTag::List(o) => {
                if st.frames.len() == 0 {
                    crate::delta_parser::lemma_ok_flush_para(st.b);
                    crate::delta_parser::lemma_ok_flush_list(flush_para(st.b));
                } else {
                    match o {
                        None => {
                            lemma_frames_ok_push(
                                st.frames,
                                GFrame::NestedList(ListType::Bullet, Seq::empty()),
                            );
                        },
                        Some(n) => {
                            if n == 1 {
                                lemma_frames_ok_push(
                                    st.frames,
                                    GFrame::NestedList(ListType::Ordered, Seq::empty()),
                                );
                            }
                        },
                    }
                }
            },
            GTag::Item => {
                lemma_frames_ok_push(st.frames, GFrame::Item(Seq::empty(), None));
            },
            GTag::Table => {
                if st.frames.len() == 0 {
                    crate::delta_parser::lemma_ok_flush_para(st.b);
                    crate::delta_parser::lemma_ok_flush_table(flush_para(st.b));
                }
            },
            GTag::TableHead => {
                if st.frames.len() == 0 {
                    lemma_ok_push_row(st.b);
                }
            },
            GTag::TableRow => {
                if st.frames.len() == 0 {
                    lemma_ok_push_row(st.b);
                }
            },
            GTag::TableCell => {
                lemma_frames_ok_push(st.frames, GFrame::Cell(Seq::empty()));
            },
            GTag::Image(u, t) => {
                lemma_frames_ok_push(st.frames, GFrame::ImageAlt(u, t, Seq::empty()));
            },
            _ => {},
        },
        GEvent::End(tag) => {
            lemma_ok_md_end(st, tag);
        },
        GEvent::Text(t) => {
            if st.frames.len() > 0 && st.frames.last() is CodeBlock {
                match st.frames.last() {
                    GFrame::CodeBlock(lang, content) => {
                        lemma_frames_ok_push(
                            st.frames.drop_last(),
                            GFrame::CodeBlock(lang, content + t + seq!['\n']),
                        );
                    },
                    _ => {},
                }
            } else if st.frames.len() > 0 && st.frames.last() is ImageAlt {
                match st.frames.last() {
                    GFrame::ImageAlt(u, ti, alt) => {
                        lemma_frames_ok_push(
                            st.frames.drop_last(),
                            GFrame::ImageAlt(u, ti, alt + t),
                        );
                    },
                    _ => {},
                }
            } else if st.frames.len() > 0 {
                lemma_ok_inline_nodes(split_inline(t, true), st.styles);
                lemma_ok_put_inlines(st, inline_nodes(split_inline(t, true), st.styles));
            } else {
                if !st.in_para {
                    match split_block_md(t) {
                        Some(parts) => {
                            lemma_ok_fold_block_parts(st.b, parts, st.styles);
                        },
                        None => {
                            lemma_ok_fold_inline_parts(st.b, split_inline(t, true), st.styles);
                        },
                    }
                } else {
                    lemma_ok_fold_inline_parts(st.b, split_inline(t, true), st.styles);
                }
            }
        },
        GEvent::Code(c) => {
            if st.frames.len() == 0 {
                lemma_ok_with_inline(st.b, GNode::Code { content: c });
            } else if st.frames.last() is CodeBlock || st.frames.last() is ImageAlt {
            } else {
                lemma_ok_frame_add(st.frames, GNode::Code { content: c });
            }
        },
        GEvent::SoftBreak => {
            if st.frames.len() == 0 {
                assert(seq![' '].len() == 1);
                lemma_ok_with_inline(st.b, GNode::Text { content: seq![' '] });
            }
        },
        GEvent::HardBreak => {
            if st.frames.len() == 0 {
                assert(seq!['\n'].len() == 1);
                lemma_ok_with_inline(st.b, GNode::Text { content: seq!['\n'] });
            }
        },
        GEvent::Rule => {
            if st.frames.len() == 0 {
                crate::delta_parser::lemma_ok_with_block(st.b, GNode::HorizontalRule);
            } else {
                match st.frames.last() {
                    GFrame::Blockquote(ns) => {
                        lemma_ok_frame_add(st.frames, GNode::HorizontalRule);
                    },
                    _ => {},
                }
            }
        },
        GEvent::TaskListMarker(bb) => {
            if st.frames.len() > 0 {
                match st.frames.last() {
                    GFrame::Item(ns, _) => {
                        lemma_frames_ok_push(st.frames.drop_last(), GFrame::Item(ns, Some(bb)));
                    },
                    _ => {},
                }
            }
        },
        _ => {},
    }
}

proof fn lemma_ok_push_row(b: GBuilder)
    requires
        crate::delta_parser::b_text_ok(b),
    ensures
        crate::delta_parser::b_text_ok(push_row(b)),
{
    match b.row {
        Some(cells) => match b.table {
            Some(rows) => {
                crate::ast::lemma_text_nonempty_rows_push(rows, crate::ast::GRow { cells });
            },
            None => {},
        },
        None => {},
    }
}

#[verifier::rlimit(100)]
#[verifier::spinoff_prover]
proof fn lemma_ok_md_end(st: GMd, tag: GTag)
    requires
        md_text_ok(st),
    ensures
        md_text_ok(md_step(st, GEvent::End(tag))),
{
    if st.frames.len() > 0 {
        lemma_frames_ok_last(st.frames);
    }
    match tag {
        GTag::Paragraph => {
            if st.frames.len() == 0 {
                match st.b.para {
                    Some(children) => {
                        if para_is_block_math(children) {
                            crate::ast::lemma_text_nonempty_push(
                                st.b.root,
                                GNode::Math { content: para_math_content(children), display: true },
                            );
                        } else {
                            crate::delta_parser::lemma_ok_flush_para(st.b);
                        }
                    },
                    None => {},
                }
            } else {
                match st.frames.last() {
                    GFrame::Para(ns) => {
                        let popped = GMd { frames: st.frames.drop_last(), ..st };
                        if para_is_block_math(ns) {
                            lemma_ok_put_block(
                                popped,
                                GNode::Math { content: para_math_content(ns), display: true },
                            );
                        } else if ns.len() > 0 {
                            lemma_ok_put_block(popped, GNode::Paragraph { children: ns });
                        }
                    },
                    _ => {},
                }
            }
        },
        GTag::Heading(_) => {
            if st.frames.len() > 0 {
                match st.frames.last() {
                    GFrame::Heading(l, ns) => {
                        let popped = GMd { frames: st.frames.drop_last(), ..st };
                        if popped.frames.len() == 0 {
                            crate::delta_parser::lemma_ok_with_block(
                                popped.b,
                                GNode::Heading {
                                    level: crate::ast::clamp_level(l),
                                    children: ns,
                                },
                            );
                        } else {
                            lemma_ok_put_block(
                                popped,
                                GNode::Heading {
                                    level: crate::ast::clamp_level(l),
                                    children: ns,
                                },
                            );
                        }
                    },
                    _ => {},
                }
            }
        },
        GTag::BlockQuote => {
            if st.frames.len() > 0 {
                match st.frames.last() {
                    GFrame::Blockquote(ns) => {
                        let popped = GMd { frames: st.frames.drop_last(), ..st };
                        lemma_ok_put_block(popped, GNode::Blockquote { children: ns });
                    },
                    _ => {},
                }
            }
        },
        GTag::CodeBlockFenced(_) => {
            lemma_ok_end_code(st);
        },
        GTag::CodeBlockIndented => {
            lemma_ok_end_code(st);
        },
        GTag::List(_) => {
            if st.frames.len() == 0 {
                crate::delta_parser::lemma_ok_flush_list(st.b);
            } else {
                match st.frames.last() {
                    GFrame::NestedList(t, items) => {
                        let popped = GMd { frames: st.frames.drop_last(), ..st };
                        lemma_ok_put_block(popped, GNode::List { list_type: t, items });
                    },
                    _ => {},
                }
            }
        },
        GTag::Item => {
            if st.frames.len() > 0 {
                match st.frames.last() {
                    GFrame::Item(ns, c) => {
                        let parent = st.frames.drop_last();
                        let item = crate::ast::GListItem { children: ns, checked: c };
                        if parent.len() == 0 {
                            match st.b.list {
                                Some((t, items)) => {
                                    crate::ast::lemma_text_nonempty_items_push(items, item);
                                },
                                None => {
                                    crate::delta_parser::lemma_ok_flush_para(st.b);
                                    crate::delta_parser::lemma_ok_flush_list(flush_para(st.b));
                                    crate::ast::lemma_text_nonempty_items_singleton(item);
                                },
                            }
                        } else {
                            lemma_frames_ok_last(parent);
                            match parent.last() {
                                GFrame::NestedList(t, items) => {
                                    crate::ast::lemma_text_nonempty_items_push(items, item);
                                    lemma_frames_ok_push(
                                        parent.drop_last(),
                                        GFrame::NestedList(t, items.push(item)),
                                    );
                                },
                                _ => {},
                            }
                        }
                    },
                    _ => {},
                }
            }
        },
        GTag::Table => {
            if st.frames.len() == 0 {
                crate::delta_parser::lemma_ok_flush_table(st.b);
            }
        },
        GTag::TableHead => {
            if st.frames.len() == 0 {
                lemma_ok_push_row(st.b);
            }
        },
        GTag::TableRow => {
            if st.frames.len() == 0 {
                lemma_ok_push_row(st.b);
            }
        },
        GTag::TableCell => {
            if st.frames.len() > 0 {
                match st.frames.last() {
                    GFrame::Cell(ns) => {
                        let parent = st.frames.drop_last();
                        let cell = crate::ast::GCell { children: ns, align: None };
                        if parent.len() == 0 {
                            match st.b.row {
                                Some(cells) => {
                                    crate::ast::lemma_text_nonempty_cells_push(cells, cell);
                                },
                                None => {},
                            }
                        } else {
                            lemma_ok_put_block(
                                GMd { frames: parent, ..st },
                                GNode::TableCell { cell },
                            );
                        }
                    },
                    _ => {},
                }
            }
        },
        GTag::Image(_, _) => {
            if st.frames.len() > 0 {
                match st.frames.last() {
                    GFrame::ImageAlt(url, title, alt) => {
                        let popped = GMd { frames: st.frames.drop_last(), ..st };
                        let alt_opt = if alt.len() > 0 {
                            Some(alt)
                        } else if title.len() > 0 {
                            Some(title)
                        } else {
                            None
                        };
                        crate::delta_parser::lemma_ok_with_block(
                            popped.b,
                            GNode::Image { url, width: None, height: None, alt: alt_opt },
                        );
                    },
                    _ => {},
                }
            }
        },
        _ => {},
    }
}

proof fn lemma_ok_end_code(st: GMd)
    requires
        md_text_ok(st),
    ensures
        md_text_ok(end_code_block(st)),
{
    if st.frames.len() > 0 {
        lemma_frames_ok_last(st.frames);
        match st.frames.last() {
            GFrame::CodeBlock(lang, content) => {
                let popped = GMd { frames: st.frames.drop_last(), ..st };
                let c = trim_end_seq(content);
                let node = match lang {
                    Some(l) => if ascii_lower(l) == "mermaid"@ {
                        GNode::Mermaid { content: c }
                    } else {
                        GNode::CodeBlock { language: Some(l), content: c }
                    },
                    None => GNode::CodeBlock { language: None, content: c },
                };
                lemma_ok_put_block(popped, node);
            },
            _ => {},
        }
    }
}

proof fn lemma_ok_md_fold(st: GMd, evs: Seq<GEvent>)
    requires
        md_text_ok(st),
    ensures
        md_text_ok(md_fold(st, evs)),
    decreases evs.len(),
{
    if evs.len() > 0 {
        lemma_ok_md_step(st, evs[0]);
        lemma_ok_md_fold(md_step(st, evs[0]), evs.drop_first());
    }
}

/// Text leaves are never empty after insertion: the tree a Markdown text
/// parses to holds no empty text leaf, whatever the event stream was.
pub proof fn lemma_md_text_nonempty(evs: Seq<GEvent>)
    ensures
        crate::ast::text_nonempty_nodes(md_result(evs)),
{
    assert(md_text_ok(md_init()));
    lemma_ok_md_fold(md_init(), evs);
    let st = md_fold(md_init(), evs);
    crate::delta_parser::lemma_ok_flush_para(st.b);
    crate::delta_parser::lemma_ok_flush_list(flush_para(st.b));
    crate::delta_parser::lemma_ok_flush_table(flush_list(flush_para(st.b)));
}

} // verus!
